//! What the commands exchange with a language server, as plain values.

use crate::strings;
use url::Url;
use vstd::prelude::*;

verus! {

/// How a server counts the offsets inside a line.
#[derive(Clone, Copy, Debug, PartialEq, Eq, Structural)]
pub enum OffsetEncoding {
    Utf8,
    Utf16,
}

/// A place in a file, as servers write it.
#[derive(Clone, Copy, Debug, PartialEq, Eq, Structural)]
pub struct LspPosition {
    pub line: u32,
    pub character: u32,
}

#[derive(Clone, Copy, Debug, PartialEq, Eq, Structural)]
pub struct LspRange {
    pub start: LspPosition,
    pub end: LspPosition,
}

/// `url::ParseError`, carried through as an opaque value.
#[verifier::external_type_specification]
#[verifier::external_body]
pub struct ExParseError(url::ParseError);

/// What a string is as a URL: how the URL is written, and its path. None where
/// the string is no URL.
pub uninterp spec fn url_parts(s: Seq<char>) -> Option<(Seq<char>, Seq<char>)>;

/// `Url::parse`, with `Url::as_str` and `Url::path` of what it makes. Which
/// strings are URLs, and how they are taken apart, is not restated here: it is a
/// function of the string.
#[verifier::external_body]
fn parse_url(s: &str) -> (parts: Result<(String, String), url::ParseError>)
    ensures
        match parts {
            Ok(parts) => url_parts(s@) == Some((parts.0@, parts.1@)),
            Err(_) => url_parts(s@) is None,
        },
{
    let url = Url::parse(s)?;
    Ok((url.as_str().to_owned(), url.path().to_owned()))
}

/// The address of a file, as servers write it.
#[derive(Debug)]
pub struct Uri {
    address: String,
    path: String,
}

/// What an address is.
#[verifier::ext_equal]
pub struct UriView {
    pub address: Seq<char>,
    /// The path of the file that the address names.
    pub path: Seq<char>,
}

impl View for Uri {
    type V = UriView;

    closed spec fn view(&self) -> UriView {
        UriView { address: self.address@, path: self.path@ }
    }
}

impl Uri {
    /// The address and the path are those of some URL.
    #[verifier::type_invariant]
    spec fn is_url(self) -> bool {
        exists|s: Seq<char>| #[trigger] url_parts(s) == Some((self.address@, self.path@))
    }

    /// The address that a string writes, where it is a URL.
    pub fn parse(s: &str) -> (uri: Option<Uri>)
        ensures
            match url_parts(s@) {
                Some(parts) => uri matches Some(uri) && uri@ == (UriView {
                    address: parts.0,
                    path: parts.1,
                }),
                None => uri is None,
            },
    {
        match parse_url(s) {
            Ok((address, path)) => {
                assert(url_parts(s@) == Some((address@, path@)));
                Some(Uri { address, path })
            },
            Err(_) => None,
        }
    }

    /// How the address is written.
    pub fn as_str(&self) -> (s: &str)
        ensures
            s@ == self@.address,
    {
        self.address.as_str()
    }

    /// The path of the file that the address names.
    pub fn path(&self) -> (path: &str)
        ensures
            path@ == self@.path,
            exists|s: Seq<char>| #[trigger] url_parts(s) == Some((self@.address, path@)),
    {
        proof {
            use_type_invariant(self);
        }
        self.path.as_str()
    }
}

impl Clone for Uri {
    fn clone(&self) -> (uri: Uri)
        ensures
            uri@ == self@,
    {
        proof {
            use_type_invariant(self);
        }
        Uri { address: self.address.clone(), path: self.path.clone() }
    }
}

/// A range in some file.
#[derive(Debug)]
pub struct Location {
    pub uri: Uri,
    pub range: LspRange,
}

/// What a location holds.
#[verifier::ext_equal]
pub struct LocationView {
    pub uri: UriView,
    pub range: LspRange,
}

impl View for Location {
    type V = LocationView;

    open spec fn view(&self) -> LocationView {
        LocationView { uri: self.uri@, range: self.range }
    }
}

/// What each location holds.
pub open spec fn location_views(locations: Seq<Location>) -> Seq<LocationView> {
    locations.map_values(|location: Location| location@)
}

/// A location with the place that refers to it.
#[derive(Debug)]
pub struct LocationLink {
    pub target_uri: Uri,
    pub target_range: LspRange,
    pub target_selection_range: LspRange,
}

/// The answer to a question for a definition.
#[derive(Debug)]
pub enum GotoDefinitionResponse {
    Scalar(Location),
    Array(Vec<Location>),
    Link(Vec<LocationLink>),
}

/// The locations that an answer names, in its order: the target of each link,
/// and none where there was no answer.
pub open spec fn response_locations(response: Option<GotoDefinitionResponse>) -> Seq<LocationView> {
    match response {
        Some(GotoDefinitionResponse::Scalar(location)) => seq![location@],
        Some(GotoDefinitionResponse::Array(locations)) => location_views(locations@),
        Some(GotoDefinitionResponse::Link(links)) => links@.map_values(
            |link: LocationLink|
                LocationView { uri: link.target_uri@, range: link.target_range },
        ),
        None => Seq::empty(),
    }
}

/// The locations that an answer names.
pub fn goto_locations(response: Option<GotoDefinitionResponse>) -> (items: Vec<Location>)
    ensures
        location_views(items@) == response_locations(response),
{
    match response {
        Some(GotoDefinitionResponse::Scalar(location)) => {
            let items = vec![location];
            assert(location_views(items@) =~= seq![location@]);
            items
        },
        Some(GotoDefinitionResponse::Array(locations)) => locations,
        Some(GotoDefinitionResponse::Link(links)) => {
            let mut items: Vec<Location> = Vec::with_capacity(links.len());
            let mut i: usize = 0;
            while i < links.len()
                invariant
                    i <= links@.len(),
                    items@.len() == i,
                    forall|j: int|
                        0 <= j < i ==> (#[trigger] items@[j])@ == (LocationView {
                            uri: links@[j].target_uri@,
                            range: links@[j].target_range,
                        }),
                decreases links@.len() - i,
            {
                let link = &links[i];
                items.push(
                    Location { uri: link.target_uri.clone(), range: link.target_range },
                );
                i += 1;
            }
            assert(location_views(items@) =~= response_locations(response));
            items
        },
        None => {
            let items: Vec<Location> = Vec::new();
            assert(location_views(items@) =~= Seq::empty());
            items
        },
    }
}

/// The file that a document is known by.
#[derive(Debug)]
pub struct TextDocumentIdentifier {
    pub uri: Uri,
}

/// A symbol with the symbols inside it.
#[derive(Debug)]
pub struct DocumentSymbol {
    pub name: String,
    pub kind: i32,
    pub tags: Option<Vec<i32>>,
    pub deprecated: Option<bool>,
    pub range: LspRange,
    pub selection_range: LspRange,
    pub children: Option<Vec<DocumentSymbol>>,
}

/// A symbol that stands by itself.
#[derive(Debug)]
pub struct SymbolInformation {
    pub name: String,
    pub kind: i32,
    pub tags: Option<Vec<i32>>,
    pub deprecated: Option<bool>,
    pub location: Location,
    pub container_name: Option<String>,
}

/// What a symbol that stands by itself holds.
#[verifier::ext_equal]
pub struct SymbolInformationView {
    pub name: Seq<char>,
    pub kind: i32,
    pub tags: Option<Seq<i32>>,
    pub deprecated: Option<bool>,
    pub location: LocationView,
    pub container_name: Option<Seq<char>>,
}

impl View for SymbolInformation {
    type V = SymbolInformationView;

    open spec fn view(&self) -> SymbolInformationView {
        SymbolInformationView {
            name: self.name@,
            kind: self.kind,
            tags: match self.tags {
                Some(tags) => Some(tags@),
                None => None,
            },
            deprecated: self.deprecated,
            location: self.location@,
            container_name: strings::option_view(self.container_name),
        }
    }
}

/// What each symbol holds.
pub open spec fn symbol_views(symbols: Seq<SymbolInformation>) -> Seq<SymbolInformationView> {
    symbols.map_values(|symbol: SymbolInformation| symbol@)
}

/// A symbol without those inside it, placed in its file where its name stands.
pub open spec fn symbol_alone(
    file: TextDocumentIdentifier,
    symbol: DocumentSymbol,
) -> SymbolInformationView {
    SymbolInformationView {
        name: symbol.name@,
        kind: symbol.kind,
        tags: match symbol.tags {
            Some(tags) => Some(tags@),
            None => None,
        },
        deprecated: symbol.deprecated,
        location: LocationView { uri: file.uri@, range: symbol.selection_range },
        container_name: None,
    }
}

/// A symbol, then all that it holds, each before what it holds in turn.
pub open spec fn flattened(
    file: TextDocumentIdentifier,
    symbol: DocumentSymbol,
) -> Seq<SymbolInformationView>
    decreases symbol,
{
    seq![symbol_alone(file, symbol)] + match symbol.children {
        Some(children) => all_flattened(file, children@),
        None => Seq::empty(),
    }
}

/// The symbols one after the other, each with all that it holds.
pub open spec fn all_flattened(
    file: TextDocumentIdentifier,
    symbols: Seq<DocumentSymbol>,
) -> Seq<SymbolInformationView>
    decreases symbols,
{
    if symbols.len() == 0 {
        Seq::empty()
    } else {
        all_flattened(file, symbols.drop_last()) + flattened(file, symbols.last())
    }
}

/// Adds a symbol and all that it holds to the list.
pub fn nested_to_flat(
    list: &mut Vec<SymbolInformation>,
    file: &TextDocumentIdentifier,
    symbol: &DocumentSymbol,
)
    ensures
        symbol_views(final(list)@) == symbol_views(old(list)@) + flattened(*file, *symbol),
    decreases symbol,
{
    let tags: Option<Vec<i32>> = match &symbol.tags {
        Some(tags) => {
            let copy = tags.clone();
            assert(copy@ =~= tags@);
            Some(copy)
        },
        None => None,
    };
    list.push(
        SymbolInformation {
            name: symbol.name.clone(),
            kind: symbol.kind,
            tags,
            deprecated: symbol.deprecated,
            location: Location { uri: file.uri.clone(), range: symbol.selection_range },
            container_name: None,
        },
    );
    assert(symbol_views(list@) =~= symbol_views(old(list)@) + seq![symbol_alone(*file, *symbol)]);
    if let Some(children) = &symbol.children {
        let ghost before = symbol_views(list@);
        let mut i: usize = 0;
        assert(symbol_views(list@) =~= before + all_flattened(*file, children@.take(0)));
        while i < children.len()
            invariant
                symbol.children == Some(*children),
                i <= children@.len(),
                symbol_views(list@) == before + all_flattened(*file, children@.take(i as int)),
            decreases children@.len() - i,
        {
            assert(decreases_to!(*symbol => symbol.children->0@[i as int]));
            nested_to_flat(list, file, &children[i]);
            assert(children@.take(i + 1).drop_last() =~= children@.take(i as int));
            assert(symbol_views(list@) =~= before + all_flattened(*file, children@.take(i + 1)));
            i += 1;
        }
        assert(children@.take(i as int) =~= children@);
        assert(symbol_views(list@) =~= symbol_views(old(list)@) + flattened(*file, *symbol));
    }
}

/// The answer to a question for the symbols of a document.
#[derive(Debug)]
pub enum DocumentSymbolResponse {
    Flat(Vec<SymbolInformation>),
    Nested(Vec<DocumentSymbol>),
}

/// The symbols of an answer as one list, whichever way the server wrote them.
pub open spec fn response_symbols(
    file: TextDocumentIdentifier,
    response: DocumentSymbolResponse,
) -> Seq<SymbolInformationView> {
    match response {
        DocumentSymbolResponse::Flat(symbols) => symbol_views(symbols@),
        DocumentSymbolResponse::Nested(symbols) => all_flattened(file, symbols@),
    }
}

/// The symbols of an answer as one list.
pub fn flat_symbols(
    file: &TextDocumentIdentifier,
    response: DocumentSymbolResponse,
) -> (symbols: Vec<SymbolInformation>)
    ensures
        symbol_views(symbols@) == response_symbols(*file, response),
{
    match response {
        DocumentSymbolResponse::Flat(symbols) => symbols,
        DocumentSymbolResponse::Nested(symbols) => {
            let mut flat: Vec<SymbolInformation> = Vec::new();
            let mut i: usize = 0;
            assert(symbol_views(flat@) =~= all_flattened(*file, symbols@.take(0)));
            while i < symbols.len()
                invariant
                    i <= symbols@.len(),
                    symbol_views(flat@) == all_flattened(*file, symbols@.take(i as int)),
                decreases symbols@.len() - i,
            {
                nested_to_flat(&mut flat, file, &symbols[i]);
                assert(symbols@.take(i + 1).drop_last() =~= symbols@.take(i as int));
                i += 1;
            }
            assert(symbols@.take(i as int) =~= symbols@);
            flat
        },
    }
}

/// The answer to a question for completion.
#[derive(Debug)]
pub enum CompletionResponse<T> {
    Array(Vec<T>),
    List { is_incomplete: bool, items: Vec<T> },
}

/// What an answer about a place holds, as far as it is shown.
#[derive(Debug)]
pub enum HoverContents {
    /// A string or a piece of code.
    Scalar,
    /// Strings and pieces of code.
    Array,
    /// Text with markup.
    Markup(String),
}

} // verus!
