use vstd::prelude::*;
use vstd::utf8::is_ascii_chars;
use vstd::string::StringExecFns;

verus! {

/// The kind of simulation that an applicant (an evaluation task) runs.
#[derive(Clone, Copy, Debug, PartialEq, Eq, Structural)]
pub enum NeatNetworkApplicantType {
    Unknown,
    Float,
    Matrix,
    Steps,
    StepsIterate,
    StepsIterateBack,
}

impl Default for NeatNetworkApplicantType {
    fn default() -> (r: Self)
        ensures
            r == NeatNetworkApplicantType::Unknown,
    {
        NeatNetworkApplicantType::Unknown
    }
}

/// The text an applicant type is written as (in camelCase).
pub open spec fn display_text(t: NeatNetworkApplicantType) -> Seq<char> {
    match t {
        NeatNetworkApplicantType::Float => seq!['f', 'l', 'o', 'a', 't'],
        NeatNetworkApplicantType::Matrix => seq!['m', 'a', 't', 'r', 'i', 'x'],
        NeatNetworkApplicantType::Steps => seq!['s', 't', 'e', 'p', 's'],
        NeatNetworkApplicantType::StepsIterate => seq![
            's', 't', 'e', 'p', 's', 'I', 't', 'e', 'r', 'a', 't', 'e'
        ],
        NeatNetworkApplicantType::StepsIterateBack => seq![
            's', 't', 'e', 'p', 's', 'I', 't', 'e', 'r', 'a', 't', 'e', 'B', 'a', 'c', 'k'
        ],
        NeatNetworkApplicantType::Unknown => seq!['u', 'n', 'k', 'n', 'o', 'w', 'n'],
    }
}

/// The lower-case keyword that selects an applicant type when text is read.
pub open spec fn keyword(t: NeatNetworkApplicantType) -> Seq<char> {
    match t {
        NeatNetworkApplicantType::Float => seq!['f', 'l', 'o', 'a', 't'],
        NeatNetworkApplicantType::Matrix => seq!['m', 'a', 't', 'r', 'i', 'x'],
        NeatNetworkApplicantType::Steps => seq!['s', 't', 'e', 'p', 's'],
        NeatNetworkApplicantType::StepsIterate => seq![
            's', 't', 'e', 'p', 's', 'i', 't', 'e', 'r', 'a', 't', 'e'
        ],
        NeatNetworkApplicantType::StepsIterateBack => seq![
            's', 't', 'e', 'p', 's', 'i', 't', 'e', 'r', 'a', 't', 'e', 'b', 'a', 'c', 'k'
        ],
        NeatNetworkApplicantType::Unknown => seq!['u', 'n', 'k', 'n', 'o', 'w', 'n'],
    }
}

/// The applicant type that already lower-cased text names; anything that
/// is not one of the five keywords is `Unknown`.
pub open spec fn kind_of_lowercase(s: Seq<char>) -> NeatNetworkApplicantType {
    if s == keyword(NeatNetworkApplicantType::Float) {
        NeatNetworkApplicantType::Float
    } else if s == keyword(NeatNetworkApplicantType::Matrix) {
        NeatNetworkApplicantType::Matrix
    } else if s == keyword(NeatNetworkApplicantType::Steps) {
        NeatNetworkApplicantType::Steps
    } else if s == keyword(NeatNetworkApplicantType::StepsIterate) {
        NeatNetworkApplicantType::StepsIterate
    } else if s == keyword(NeatNetworkApplicantType::StepsIterateBack) {
        NeatNetworkApplicantType::StepsIterateBack
    } else {
        NeatNetworkApplicantType::Unknown
    }
}

/// One character mapped to lower case the ASCII way: `A`..`Z` to `a`..`z`,
/// every other character unchanged.
pub open spec fn ascii_lower_char(c: char) -> char {
    if 'A' <= c <= 'Z' {
        ((c as u32) + 32) as char
    } else {
        c
    }
}

/// Text mapped to lower case the ASCII way, character by character.
pub open spec fn ascii_lower(s: Seq<char>) -> Seq<char> {
    Seq::new(s.len(), |i: int| ascii_lower_char(s[i]))
}

/// What `str::to_lowercase` gives for a text (full Unicode lower-casing).
pub uninterp spec fn unicode_lowercase(s: Seq<char>) -> Seq<char>;

/// The applicant type that a text names, compared without regard to case.
pub open spec fn kind_of_text(s: Seq<char>) -> NeatNetworkApplicantType {
    if is_ascii_chars(s) {
        kind_of_lowercase(ascii_lower(s))
    } else {
        kind_of_lowercase(unicode_lowercase(s))
    }
}

/// Calls `str::to_lowercase`. The contract claims that the result is the
/// Unicode lower case of the text (a name, `unicode_lowercase`), and that on
/// ASCII text it maps exactly `A`..`Z` to `a`..`z` and keeps every other
/// character: the Unicode lower-case mapping of the ASCII range.
#[verifier::external_body]
fn to_lowercase(s: &str) -> (r: String)
    ensures
        r@ == unicode_lowercase(s@),
        is_ascii_chars(s@) ==> r@ == ascii_lower(s@),
{
    s.to_lowercase()
}

fn same_text(s: &String, lit: &str) -> (b: bool)
    ensures
        b == (s@ == lit@),
{
    let other = String::from_str(lit);
    *s == other
}

impl NeatNetworkApplicantType {
    /// The text of the type, in camelCase; what `Display` writes for it.
    pub fn to_string(&self) -> (r: String)
        ensures
            r@ == display_text(*self),
    {
        proof {
            reveal_strlit("float");
            reveal_strlit("matrix");
            reveal_strlit("steps");
            reveal_strlit("stepsIterate");
            reveal_strlit("stepsIterateBack");
            reveal_strlit("unknown");
        }
        match self {
            NeatNetworkApplicantType::Float => String::from_str("float"),
            NeatNetworkApplicantType::Matrix => String::from_str("matrix"),
            NeatNetworkApplicantType::Steps => String::from_str("steps"),
            NeatNetworkApplicantType::StepsIterate => String::from_str("stepsIterate"),
            NeatNetworkApplicantType::StepsIterateBack => String::from_str("stepsIterateBack"),
            NeatNetworkApplicantType::Unknown => String::from_str("unknown"),
        }
    }

    /// The type that lower-case text names: one of the five keywords, else
    /// `Unknown`.
    pub fn from_lowercase(s: &str) -> (r: Self)
        ensures
            r == kind_of_lowercase(s@),
    {
        proof {
            reveal_strlit("float");
            reveal_strlit("matrix");
            reveal_strlit("steps");
            reveal_strlit("stepsiterate");
            reveal_strlit("stepsiterateback");
            assert("float"@ =~= keyword(NeatNetworkApplicantType::Float));
            assert("matrix"@ =~= keyword(NeatNetworkApplicantType::Matrix));
            assert("steps"@ =~= keyword(NeatNetworkApplicantType::Steps));
            assert("stepsiterate"@ =~= keyword(NeatNetworkApplicantType::StepsIterate));
            assert("stepsiterateback"@ =~= keyword(NeatNetworkApplicantType::StepsIterateBack));
        }
        let owned = String::from_str(s);
        if same_text(&owned, "float") {
            NeatNetworkApplicantType::Float
        } else if same_text(&owned, "matrix") {
            NeatNetworkApplicantType::Matrix
        } else if same_text(&owned, "steps") {
            NeatNetworkApplicantType::Steps
        } else if same_text(&owned, "stepsiterate") {
            NeatNetworkApplicantType::StepsIterate
        } else if same_text(&owned, "stepsiterateback") {
            NeatNetworkApplicantType::StepsIterateBack
        } else {
            NeatNetworkApplicantType::Unknown
        }
    }
}

impl From<String> for NeatNetworkApplicantType {
    fn from(value: String) -> (r: Self) {
        let lowered = to_lowercase(value.as_str());
        NeatNetworkApplicantType::from_lowercase(lowered.as_str())
    }
}

impl vstd::std_specs::convert::FromSpecImpl<String> for NeatNetworkApplicantType {
    open spec fn obeys_from_spec() -> bool {
        true
    }

    open spec fn from_spec(v: String) -> Self {
        kind_of_text(v@)
    }
}

/// Writing an applicant type and reading the text back gives the same type:
/// the text is ASCII, and its case-insensitive reading names the type.
pub proof fn lemma_display_round_trip(t: NeatNetworkApplicantType)
    ensures
        is_ascii_chars(display_text(t)),
        kind_of_text(display_text(t)) == t,
{
    let s = display_text(t);
    assert(ascii_lower(s) =~= keyword(t));
    if t == NeatNetworkApplicantType::Unknown {
        assert(ascii_lower(s) != keyword(NeatNetworkApplicantType::Float));
        assert(ascii_lower(s) != keyword(NeatNetworkApplicantType::Matrix));
        assert(ascii_lower(s) != keyword(NeatNetworkApplicantType::Steps));
        assert(ascii_lower(s) != keyword(NeatNetworkApplicantType::StepsIterate));
        assert(ascii_lower(s) != keyword(NeatNetworkApplicantType::StepsIterateBack));
    }
}

} // verus!
