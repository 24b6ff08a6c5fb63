//! The closed palette of article themes.

use vstd::prelude::*;
use vstd::string::StringExecFns;
use vstd::string::StringSliceAdditionalSpecFns;

verus! {

/// One of the nineteen colour themes an article revision can carry.
#[derive(Debug, PartialEq, Eq, Clone, Copy, Structural)]
pub enum Theme {
    Red,
    Pink,
    Purple,
    DeepPurple,
    Indigo,
    Blue,
    LightBlue,
    Cyan,
    Teal,
    Green,
    LightGreen,
    Lime,
    Yellow,
    Amber,
    Orange,
    DeepOrange,
    Brown,
    Gray,
    BlueGray,
}

/// Number of themes in the palette.
pub const THEME_COUNT: u64 = 19;

/// The palette in declaration order.
pub open spec fn palette() -> Seq<Theme> {
    seq![
        Theme::Red,
        Theme::Pink,
        Theme::Purple,
        Theme::DeepPurple,
        Theme::Indigo,
        Theme::Blue,
        Theme::LightBlue,
        Theme::Cyan,
        Theme::Teal,
        Theme::Green,
        Theme::LightGreen,
        Theme::Lime,
        Theme::Yellow,
        Theme::Amber,
        Theme::Orange,
        Theme::DeepOrange,
        Theme::Brown,
        Theme::Gray,
        Theme::BlueGray,
    ]
}

/// The SeaHash digest of a byte string, as `seahash::reference::hash`
/// computes it.
pub uninterp spec fn seahash_of(bytes: Seq<u8>) -> u64;

/// Calls `seahash::reference::hash`, which hashes a buffer with the crate's
/// fixed seed and reads it byte by byte, wherever the buffer lies in
/// memory. Trusted: the digest is a function of the bytes alone.
#[verifier::external_body]
fn hash_bytes(bytes: &[u8]) -> (digest: u64)
    ensures
        digest == seahash_of(bytes@),
{
    seahash::reference::hash(bytes)
}

impl Theme {
    /// Position of the theme in the palette.
    pub open spec fn index_spec(self) -> int {
        match self {
            Theme::Red => 0,
            Theme::Pink => 1,
            Theme::Purple => 2,
            Theme::DeepPurple => 3,
            Theme::Indigo => 4,
            Theme::Blue => 5,
            Theme::LightBlue => 6,
            Theme::Cyan => 7,
            Theme::Teal => 8,
            Theme::Green => 9,
            Theme::LightGreen => 10,
            Theme::Lime => 11,
            Theme::Yellow => 12,
            Theme::Amber => 13,
            Theme::Orange => 14,
            Theme::DeepOrange => 15,
            Theme::Brown => 16,
            Theme::Gray => 17,
            Theme::BlueGray => 18,
        }
    }

    /// The theme at a palette position.
    pub fn from_index(index: u64) -> (theme: Theme)
        requires
            index < THEME_COUNT,
        ensures
            theme == palette()[index as int],
            theme.index_spec() == index,
    {
        match index {
            0 => Theme::Red,
            1 => Theme::Pink,
            2 => Theme::Purple,
            3 => Theme::DeepPurple,
            4 => Theme::Indigo,
            5 => Theme::Blue,
            6 => Theme::LightBlue,
            7 => Theme::Cyan,
            8 => Theme::Teal,
            9 => Theme::Green,
            10 => Theme::LightGreen,
            11 => Theme::Lime,
            12 => Theme::Yellow,
            13 => Theme::Amber,
            14 => Theme::Orange,
            15 => Theme::DeepOrange,
            16 => Theme::Brown,
            17 => Theme::Gray,
            _ => Theme::BlueGray,
        }
    }
}

/// No two themes have the same name.
pub proof fn lemma_names_distinct()
    ensures
        forall|a: Theme, b: Theme| a.name_spec() == b.name_spec() ==> a == b,
{
    reveal_strlit("red");
    reveal_strlit("pink");
    reveal_strlit("purple");
    reveal_strlit("deep-purple");
    reveal_strlit("indigo");
    reveal_strlit("blue");
    reveal_strlit("light-blue");
    reveal_strlit("cyan");
    reveal_strlit("teal");
    reveal_strlit("green");
    reveal_strlit("light-green");
    reveal_strlit("lime");
    reveal_strlit("yellow");
    reveal_strlit("amber");
    reveal_strlit("orange");
    reveal_strlit("deep-orange");
    reveal_strlit("brown");
    reveal_strlit("gray");
    reveal_strlit("blue-gray");
    assert forall|a: Theme, b: Theme| a.name_spec() == b.name_spec() implies a == b by {
        let x = a.name_spec();
        let y = b.name_spec();
        assert(x.len() == y.len());
        assert(x[0] == y[0]);
        assert(x[1] == y[1]);
        assert(x[2] == y[2]);
        if x.len() > 5 {
            assert(x[5] == y[5]);
        }
    }
}

/// A theme as a CSS class.
pub struct CssClass(pub Theme);

impl Theme {
    /// The theme's name in kebab case.
    pub open spec fn name_spec(self) -> Seq<char> {
        match self {
            Theme::Red => "red"@,
            Theme::Pink => "pink"@,
            Theme::Purple => "purple"@,
            Theme::DeepPurple => "deep-purple"@,
            Theme::Indigo => "indigo"@,
            Theme::Blue => "blue"@,
            Theme::LightBlue => "light-blue"@,
            Theme::Cyan => "cyan"@,
            Theme::Teal => "teal"@,
            Theme::Green => "green"@,
            Theme::LightGreen => "light-green"@,
            Theme::Lime => "lime"@,
            Theme::Yellow => "yellow"@,
            Theme::Amber => "amber"@,
            Theme::Orange => "orange"@,
            Theme::DeepOrange => "deep-orange"@,
            Theme::Brown => "brown"@,
            Theme::Gray => "gray"@,
            Theme::BlueGray => "blue-gray"@,
        }
    }

    /// The theme's name in kebab case.
    pub fn name(self) -> (name: &'static str)
        ensures
            name@ == self.name_spec(),
    {
        match self {
            Theme::Red => "red",
            Theme::Pink => "pink",
            Theme::Purple => "purple",
            Theme::DeepPurple => "deep-purple",
            Theme::Indigo => "indigo",
            Theme::Blue => "blue",
            Theme::LightBlue => "light-blue",
            Theme::Cyan => "cyan",
            Theme::Teal => "teal",
            Theme::Green => "green",
            Theme::LightGreen => "light-green",
            Theme::Lime => "lime",
            Theme::Yellow => "yellow",
            Theme::Amber => "amber",
            Theme::Orange => "orange",
            Theme::DeepOrange => "deep-orange",
            Theme::Brown => "brown",
            Theme::Gray => "gray",
            Theme::BlueGray => "blue-gray",
        }
    }

    /// The theme's name as an owned string.
    pub fn to_string(&self) -> (name: String)
        ensures
            name@ == self.name_spec(),
    {
        self.name().to_owned()
    }

    /// Position of the theme in the palette.
    pub fn index(self) -> (index: u64)
        ensures
            index == self.index_spec(),
            index < THEME_COUNT,
            palette()[index as int] == self,
    {
        match self {
            Theme::Red => 0,
            Theme::Pink => 1,
            Theme::Purple => 2,
            Theme::DeepPurple => 3,
            Theme::Indigo => 4,
            Theme::Blue => 5,
            Theme::LightBlue => 6,
            Theme::Cyan => 7,
            Theme::Teal => 8,
            Theme::Green => 9,
            Theme::LightGreen => 10,
            Theme::Lime => 11,
            Theme::Yellow => 12,
            Theme::Amber => 13,
            Theme::Orange => 14,
            Theme::DeepOrange => 15,
            Theme::Brown => 16,
            Theme::Gray => 17,
            Theme::BlueGray => 18,
        }
    }

    /// The theme with the given kebab-case name, if there is one.
    pub fn parse(name: &str) -> (theme: Option<Theme>)
        ensures
            forall|t: Theme| theme == Some(t) <==> name@ == t.name_spec(),
    {
        let mut i: u64 = 0;
        while i < THEME_COUNT
            invariant
                i <= THEME_COUNT,
                forall|t: Theme| t.index_spec() < i ==> name@ != t.name_spec(),
            decreases THEME_COUNT - i,
        {
            let candidate = Theme::from_index(i);
            if *name == *candidate.name() {
                proof {
                    lemma_names_distinct();
                }
                return Some(candidate);
            }
            i += 1;
        }
        None
    }

    /// The theme as a CSS class.
    pub fn css_class(self) -> (class: CssClass)
        ensures
            class.0 == self,
    {
        CssClass(self)
    }
}

impl CssClass {
    /// The class name: `theme-` and the theme's name.
    pub fn to_string(&self) -> (class: String)
        ensures
            class@ == "theme-"@ + self.0.name_spec(),
    {
        let mut class = "theme-".to_owned();
        class.append(self.0.name());
        class
    }
}

/// No theme name was given.
#[derive(Debug, Clone, Copy, PartialEq, Eq)]
pub struct ParseThemeError;

impl std::str::FromStr for Theme {
    type Err = ParseThemeError;

    /// The theme with the given kebab-case name; an error if no theme has
    /// that name.
    fn from_str(s: &str) -> (r: Result<Theme, ParseThemeError>)
        ensures
            forall|t: Theme| r == Ok::<Theme, ParseThemeError>(t) <==> s@ == t.name_spec(),
            r is Err ==> forall|t: Theme| s@ != t.name_spec(),
    {
        let found = Theme::parse(s);
        proof {
            if found is None {
                assert forall|t: Theme| s@ != t.name_spec() by {
                    assert(!(found == Some(t)));
                }
            } else {
                assert(found == Some(found->Some_0));
            }
        }
        match found {
            Some(theme) => Ok(theme),
            None => Err(ParseThemeError),
        }
    }
}

/// The palette position that a digest selects: the digest, cut to the
/// width of an address, modulo the size of the palette.
pub open spec fn choice(hash: u64) -> int {
    ((hash as usize) % (THEME_COUNT as usize)) as int
}

/// The theme selected by a digest.
pub fn theme_from_hash(hash: u64) -> (theme: Theme)
    ensures
        theme == palette()[choice(hash)],
{
    let cut =
    #[verifier::truncate]
    (hash as usize);
    Theme::from_index((cut % (THEME_COUNT as usize)) as u64)
}

/// Deterministically picks a theme for a string from the SeaHash digest of
/// its UTF-8 bytes.
pub fn theme_from_str_hash(x: &str) -> (theme: Theme)
    ensures
        theme == palette()[choice(seahash_of(x.spec_bytes()))],
{
    theme_from_hash(hash_bytes(x.as_bytes()))
}

} // verus!
