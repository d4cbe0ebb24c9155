//! Extensions of the convention that a device implements.

use std::str::FromStr;
use vstd::prelude::*;
use vstd::string::*;

use crate::text::{join, lemma_join_split, lemma_split_nonempty, split, split_text, views};

verus! {

/// An extension of the convention that a device implements.
#[derive(Clone, Debug, PartialEq, Eq)]
pub struct Extension {
    /// The identifier of the extension, in reverse domain name notation.
    pub id: String,
    /// The version of the extension.
    pub version: String,
    /// The versions of the convention that the extension applies to.
    pub homie_versions: Vec<String>,
}

/// The error of parsing an [`Extension`] from text that does not describe
/// one. It holds the text.
#[derive(Clone, Debug, PartialEq, Eq)]
pub struct ParseExtensionError(pub String);

/// What an [`Extension`] holds.
pub struct ExtensionView {
    pub id: Seq<char>,
    pub version: Seq<char>,
    pub homie_versions: Seq<Seq<char>>,
}

impl View for Extension {
    type V = ExtensionView;

    open spec fn view(&self) -> ExtensionView {
        ExtensionView {
            id: self.id@,
            version: self.version@,
            homie_versions: views(self.homie_versions@),
        }
    }
}

/// The views of a sequence of extensions.
pub open spec fn extension_views(v: Seq<Extension>) -> Seq<ExtensionView> {
    v.map_values(|e: Extension| e@)
}

/// Whether `s` is a list in square brackets.
pub open spec fn is_bracketed(s: Seq<char>) -> bool {
    s.len() >= 2 && s.first() == '[' && s.last() == ']'
}

/// The text between the brackets of `s`.
pub open spec fn bracket_interior(s: Seq<char>) -> Seq<char> {
    s.subrange(1, s.len() - 1)
}

impl ExtensionView {
    /// The extension that `s` describes, if any.
    ///
    /// A description has three parts with a colon between neighbours: the
    /// identifier, the version, and a bracketed list of versions of the
    /// convention with a semicolon between neighbours. An empty pair of
    /// brackets lists one version, the empty one.
    pub open spec fn parse(s: Seq<char>) -> Option<ExtensionView> {
        let parts = split(s, ':');
        if parts.len() == 3 && is_bracketed(parts[2]) {
            Some(
                ExtensionView {
                    id: parts[0],
                    version: parts[1],
                    homie_versions: split(bracket_interior(parts[2]), ';'),
                },
            )
        } else {
            None
        }
    }

    /// The description of the extension.
    pub open spec fn text(self) -> Seq<char> {
        self.id + seq![':'] + self.version + seq![':', '['] + join(self.homie_versions, ';')
            + seq![']']
    }
}

impl Extension {
    /// Parses the description of an extension. The error holds the whole of
    /// `s`.
    pub fn from_str(s: &str) -> (parsed: Result<Extension, ParseExtensionError>)
        ensures
            match ExtensionView::parse(s@) {
                Some(extension) => parsed matches Ok(e) && e@ == extension,
                None => parsed matches Err(e) && e.0@ == s@,
            },
    {
        let mut parts = split_text(s, ':');
        if parts.len() != 3 {
            return Err(ParseExtensionError(s.to_owned()));
        }
        let ghost pieces = views(parts@);
        let list = parts.pop().unwrap();
        let version = parts.pop().unwrap();
        let id = parts.pop().unwrap();
        proof {
            assert(pieces[0] == id@);
            assert(pieces[1] == version@);
            assert(pieces[2] == list@);
        }
        let n = list.as_str().unicode_len();
        if n < 2 || list.as_str().get_char(0) != '[' || list.as_str().get_char(n - 1) != ']' {
            return Err(ParseExtensionError(s.to_owned()));
        }
        let homie_versions = split_text(list.as_str().substring_char(1, n - 1), ';');
        Ok(Extension { id, version, homie_versions })
    }
}

impl ParseExtensionError {
    /// The message of the error.
    pub open spec fn message(self) -> Seq<char> {
        "Invalid extension '"@ + self.0@ + "'"@
    }

    /// The message of the error.
    pub fn to_string(&self) -> (message: String)
        ensures
            message@ == self.message(),
    {
        "Invalid extension '".to_owned().concat(self.0.as_str()).concat("'")
    }
}

impl FromStr for Extension {
    type Err = ParseExtensionError;

    /// Parses the description of an extension, as [`Extension::from_str`]
    /// does.
    fn from_str(s: &str) -> (parsed: Result<Self, Self::Err>)
        ensures
            match ExtensionView::parse(s@) {
                Some(extension) => parsed matches Ok(e) && e@ == extension,
                None => parsed matches Err(e) && e.0@ == s@,
            },
    {
        Extension::from_str(s)
    }
}

/// Joining the versions of a parsed extension with semicolons gives the text
/// between the brackets back, and writing the three parts out again gives the
/// whole description back.
pub proof fn lemma_extension_round_trip(s: Seq<char>)
    requires
        ExtensionView::parse(s) is Some,
    ensures
        join(ExtensionView::parse(s)->0.homie_versions, ';') == bracket_interior(
            split(s, ':')[2],
        ),
        ExtensionView::parse(s)->0.text() == s,
{
    let parts = split(s, ':');
    let list = parts[2];
    let interior = bracket_interior(list);
    lemma_join_split(interior, ';');
    lemma_join_split(s, ':');
    assert(seq!['['] + interior + seq![']'] =~= list);
    let two = parts.drop_last();
    assert(two.drop_last() =~= seq![parts[0]]);
    assert(join(two.drop_last(), ':') == parts[0]);
    assert(two.last() == parts[1]);
    assert(join(two, ':') == parts[0].push(':') + parts[1]);
    assert(join(parts, ':') == (parts[0].push(':') + parts[1]).push(':') + list);
    assert(ExtensionView::parse(s)->0.text() =~= join(parts, ':'));
}

/// An empty pair of brackets lists one version, the empty one.
pub proof fn lemma_empty_brackets_list_one_version(s: Seq<char>)
    requires
        ExtensionView::parse(s) is Some,
        split(s, ':')[2] == seq!['[', ']'],
    ensures
        ExtensionView::parse(s)->0.homie_versions == seq![Seq::<char>::empty()],
{
    assert(bracket_interior(seq!['[', ']']) =~= Seq::<char>::empty());
}

/// A text with fewer or more than three parts between colons describes no
/// extension, nor does one whose third part is not in brackets: so the empty
/// text describes none.
pub proof fn lemma_extension_rejected(s: Seq<char>)
    ensures
        split(s, ':').len() != 3 ==> ExtensionView::parse(s) is None,
        split(s, ':').len() == 3 && !is_bracketed(split(s, ':')[2]) ==> ExtensionView::parse(s)
            is None,
        s.len() == 0 ==> ExtensionView::parse(s) is None,
{
    lemma_split_nonempty(s, ':');
}

} // verus!
