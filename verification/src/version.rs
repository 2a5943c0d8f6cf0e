//! Semantic versions with an optional suffix, and the changes applied to them.

use vstd::prelude::*;
use vstd::string::*;
use crate::error::Error;
use crate::text::{
    compare, compare_spec, decimal, decimal_text, is_digit, lemma_decimal_round_trip,
    lemma_decimal_text_digits, lemma_split_first, lemma_split_nonempty, lemma_split_whole,
    parse_u32, parse_u32_spec, same_text, split, split_spec, texts, IntError, Order,
};

verus! {

/// A version `major.minor.patch`, with the text after a single `-` as suffix.
#[derive(Debug)]
pub struct Version {
    pub major: u32,
    pub minor: u32,
    pub patch: u32,
    pub suffix: Option<String>,
}

/// What a [`Version`] holds, with its suffix as a sequence of characters.
pub struct VersionView {
    pub major: u32,
    pub minor: u32,
    pub patch: u32,
    pub suffix: Option<Seq<char>>,
}

/// Why a text is no version.
pub enum VersionFault {
    /// The text is `*`.
    Asterisk,
    /// The part before the first `-` has not exactly three components.
    NonFixed,
    /// A component is no number.
    Number(IntError),
}

/// A directive that changes a version.
#[derive(Debug, Clone)]
pub enum Change {
    /// Next major version; minor and patch become zero.
    Major,
    /// Next minor version; patch becomes zero.
    Minor,
    /// Next patch version.
    Patch,
    /// The version given.
    Custom(Version),
}

/// What a [`Change`] holds.
pub enum ChangeView {
    Major,
    Minor,
    Patch,
    Custom(VersionView),
}

impl View for Version {
    type V = VersionView;

    open spec fn view(&self) -> VersionView {
        VersionView {
            major: self.major,
            minor: self.minor,
            patch: self.patch,
            suffix: match self.suffix {
                Some(s) => Some(s@),
                None => None,
            },
        }
    }
}

impl View for Change {
    type V = ChangeView;

    open spec fn view(&self) -> ChangeView {
        match self {
            Change::Major => ChangeView::Major,
            Change::Minor => ChangeView::Minor,
            Change::Patch => ChangeView::Patch,
            Change::Custom(v) => ChangeView::Custom(v@),
        }
    }
}

/// The version that the text `s` denotes.
///
/// The text is cut at every `-`: the first piece holds the three numbers,
/// and where there are exactly two pieces the second is the suffix.
pub open spec fn parse_spec(s: Seq<char>) -> Result<VersionView, VersionFault> {
    if s == seq!['*'] {
        Err(VersionFault::Asterisk)
    } else {
        let parts = split_spec(s, '-');
        let nums = split_spec(parts[0], '.');
        if nums.len() != 3 {
            Err(VersionFault::NonFixed)
        } else {
            match parse_u32_spec(nums[0]) {
                Err(e) => Err(VersionFault::Number(e)),
                Ok(major) => match parse_u32_spec(nums[1]) {
                    Err(e) => Err(VersionFault::Number(e)),
                    Ok(minor) => match parse_u32_spec(nums[2]) {
                        Err(e) => Err(VersionFault::Number(e)),
                        Ok(patch) => Ok(
                            VersionView {
                                major,
                                minor,
                                patch,
                                suffix: if parts.len() == 2 {
                                    Some(parts[1])
                                } else {
                                    None
                                },
                            },
                        ),
                    },
                },
            }
        }
    }
}

/// The change that the text `s` denotes: one of the three words, or else a
/// version.
pub open spec fn parse_change_spec(s: Seq<char>) -> Result<ChangeView, VersionFault> {
    if s == "major"@ {
        Ok(ChangeView::Major)
    } else if s == "minor"@ {
        Ok(ChangeView::Minor)
    } else if s == "patch"@ {
        Ok(ChangeView::Patch)
    } else {
        match parse_spec(s) {
            Ok(v) => Ok(ChangeView::Custom(v)),
            Err(f) => Err(f),
        }
    }
}

/// Whether the error `e` reports the fault `f` found in the text `s`.
pub open spec fn reports(e: Error, f: VersionFault, s: Seq<char>) -> bool {
    match f {
        VersionFault::Asterisk => e is VersionAsterisk,
        VersionFault::NonFixed => e matches Error::NonFixedVersion(t) && t@ == s,
        VersionFault::Number(k) => e matches Error::ParseIntError(j) && j == k,
    }
}

/// The message of the error that reports the fault `f` found in `s`.
pub open spec fn fault_text(f: VersionFault, s: Seq<char>) -> Seq<char> {
    match f {
        VersionFault::Asterisk => "versions containing \"*\" are not allowed"@,
        VersionFault::NonFixed => "detected partial version `"@ + s + "`"@,
        VersionFault::Number(k) => "ParseIntError: "@ + crate::error::int_error_text(k),
    }
}

/// An error that reports a fault has the message of that fault.
pub proof fn lemma_fault_text(e: Error, f: VersionFault, s: Seq<char>)
    requires
        reports(e, f, s),
    ensures
        e.message_spec() == fault_text(f, s),
{
}

/// The text of a version: the three numbers with dots between them, then
/// `-` and the suffix where there is one.
pub open spec fn version_text(v: VersionView) -> Seq<char> {
    let numbers = decimal_text(v.major as nat) + seq!['.'] + decimal_text(v.minor as nat)
        + seq!['.'] + decimal_text(v.patch as nat);
    match v.suffix {
        Some(s) => numbers + seq!['-'] + s,
        None => numbers,
    }
}

/// Whether `c` can be applied to `v` without leaving 32 bits.
pub open spec fn can_change_spec(v: VersionView, c: ChangeView) -> bool {
    match c {
        ChangeView::Major => v.major < u32::MAX,
        ChangeView::Minor => v.minor < u32::MAX,
        ChangeView::Patch => v.patch < u32::MAX,
        ChangeView::Custom(_) => true,
    }
}

/// The version that `c` makes of `v`.
pub open spec fn changed(v: VersionView, c: ChangeView) -> VersionView {
    match c {
        ChangeView::Major => VersionView {
            major: (v.major + 1) as u32,
            minor: 0,
            patch: 0,
            suffix: v.suffix,
        },
        ChangeView::Minor => VersionView {
            major: v.major,
            minor: (v.minor + 1) as u32,
            patch: 0,
            suffix: v.suffix,
        },
        ChangeView::Patch => VersionView {
            major: v.major,
            minor: v.minor,
            patch: (v.patch + 1) as u32,
            suffix: v.suffix,
        },
        ChangeView::Custom(w) => w,
    }
}

/// Order of two optional suffixes: none comes before any.
pub open spec fn suffix_order(a: Option<Seq<char>>, b: Option<Seq<char>>) -> Order {
    match (a, b) {
        (None, None) => Order::Equal,
        (None, Some(_)) => Order::Less,
        (Some(_), None) => Order::Greater,
        (Some(x), Some(y)) => compare_spec(x, y),
    }
}

/// Order of two versions: by major, minor and patch; of two with the same
/// numbers, the one whose suffix comes first is the greater, so that a
/// version without suffix is greater than the same numbers with one.
pub open spec fn version_order(a: VersionView, b: VersionView) -> Order {
    if a.major < b.major {
        Order::Less
    } else if a.major > b.major {
        Order::Greater
    } else if a.minor < b.minor {
        Order::Less
    } else if a.minor > b.minor {
        Order::Greater
    } else if a.patch < b.patch {
        Order::Less
    } else if a.patch > b.patch {
        Order::Greater
    } else {
        suffix_order(b.suffix, a.suffix)
    }
}

impl Clone for Version {
    fn clone(&self) -> (r: Self)
        ensures
            r@ == self@,
    {
        Version {
            major: self.major,
            minor: self.minor,
            patch: self.patch,
            suffix: match &self.suffix {
                Some(s) => Some(s.clone()),
                None => None,
            },
        }
    }
}

impl PartialEq for Version {
    fn eq(&self, other: &Self) -> (r: bool) {
        self.same(other)
    }
}

impl vstd::std_specs::cmp::PartialEqSpecImpl for Version {
    open spec fn obeys_eq_spec() -> bool {
        true
    }

    open spec fn eq_spec(&self, other: &Self) -> bool {
        self@ == other@
    }
}

impl PartialOrd for Version {
    fn partial_cmp(&self, other: &Self) -> (r: Option<std::cmp::Ordering>) {
        match self.compare(other) {
            Order::Less => Some(std::cmp::Ordering::Less),
            Order::Equal => Some(std::cmp::Ordering::Equal),
            Order::Greater => Some(std::cmp::Ordering::Greater),
        }
    }
}

impl vstd::std_specs::cmp::PartialOrdSpecImpl for Version {
    open spec fn obeys_partial_cmp_spec() -> bool {
        true
    }

    open spec fn partial_cmp_spec(&self, other: &Self) -> Option<std::cmp::Ordering> {
        match version_order(self@, other@) {
            Order::Less => Some(std::cmp::Ordering::Less),
            Order::Equal => Some(std::cmp::Ordering::Equal),
            Order::Greater => Some(std::cmp::Ordering::Greater),
        }
    }
}

impl Version {
    /// A version without suffix.
    pub fn new(major: u32, minor: u32, patch: u32) -> (r: Result<Version, Error>)
        ensures
            r matches Ok(v) && v@ == (VersionView { major, minor, patch, suffix: None }),
    {
        Ok(Version { major, minor, patch, suffix: None })
    }

    /// Reads a version from its text.
    pub fn parse(s: &str) -> (r: Result<Version, Error>)
        ensures
            match r {
                Ok(v) => parse_spec(s@) == Ok::<VersionView, VersionFault>(v@),
                Err(e) => parse_spec(s@) matches Err(f) && reports(e, f, s@),
            },
    {
        let star = same_text(s, "*");
        proof {
            reveal_strlit("*");
            assert("*"@ =~= seq!['*']);
        }
        if star {
            return Err(Error::VersionAsterisk);
        }
        let parts = split(s, '-');
        proof {
            lemma_split_nonempty(s@, '-');
            assert(texts(parts@).len() == parts@.len());
            assert(texts(parts@)[0] == parts@[0]@);
        }
        let nums = split(parts[0].as_str(), '.');
        proof {
            assert(texts(nums@).len() == nums@.len());
        }
        if nums.len() != 3 {
            return Err(Error::NonFixedVersion(String::from_str(s)));
        }
        proof {
            assert(texts(nums@)[0] == nums@[0]@);
            assert(texts(nums@)[1] == nums@[1]@);
            assert(texts(nums@)[2] == nums@[2]@);
        }
        let major = match parse_u32(nums[0].as_str()) {
            Ok(n) => n,
            Err(e) => {
                return Err(Error::ParseIntError(e));
            },
        };
        let minor = match parse_u32(nums[1].as_str()) {
            Ok(n) => n,
            Err(e) => {
                return Err(Error::ParseIntError(e));
            },
        };
        let patch = match parse_u32(nums[2].as_str()) {
            Ok(n) => n,
            Err(e) => {
                return Err(Error::ParseIntError(e));
            },
        };
        let suffix = if parts.len() == 2 {
            proof {
                assert(texts(parts@)[1] == parts@[1]@);
            }
            Some(parts[1].clone())
        } else {
            None
        };
        Ok(Version { major, minor, patch, suffix })
    }

    /// Whether `change` can be applied without a number leaving 32 bits.
    pub fn can_change(&self, change: &Change) -> (r: bool)
        ensures
            r == can_change_spec(self@, change@),
    {
        match change {
            Change::Major => self.major < u32::MAX,
            Change::Minor => self.minor < u32::MAX,
            Change::Patch => self.patch < u32::MAX,
            Change::Custom(_) => true,
        }
    }

    /// Applies `change` to this version.
    pub fn change(&mut self, change: &Change)
        requires
            can_change_spec(old(self)@, change@),
        ensures
            final(self)@ == changed(old(self)@, change@),
    {
        match change {
            Change::Major => {
                self.major = self.major + 1;
                self.minor = 0;
                self.patch = 0;
            },
            Change::Minor => {
                self.minor = self.minor + 1;
                self.patch = 0;
            },
            Change::Patch => {
                self.patch = self.patch + 1;
            },
            Change::Custom(v) => {
                *self = v.clone();
            },
        }
    }

    /// The text of this version.
    pub fn to_string(&self) -> (r: String)
        ensures
            r@ == version_text(self@),
    {
        let mut r = decimal(self.major);
        proof {
            reveal_strlit(".");
            reveal_strlit("-");
            assert("."@ =~= seq!['.']);
            assert("-"@ =~= seq!['-']);
        }
        r.append(".");
        r.append(decimal(self.minor).as_str());
        r.append(".");
        r.append(decimal(self.patch).as_str());
        match &self.suffix {
            Some(s) => {
                r.append("-");
                r.append(s.as_str());
            },
            None => {},
        }
        r
    }

    /// How this version stands to `other`.
    pub fn compare(&self, other: &Version) -> (r: Order)
        ensures
            r == version_order(self@, other@),
    {
        if self.major < other.major {
            Order::Less
        } else if self.major > other.major {
            Order::Greater
        } else if self.minor < other.minor {
            Order::Less
        } else if self.minor > other.minor {
            Order::Greater
        } else if self.patch < other.patch {
            Order::Less
        } else if self.patch > other.patch {
            Order::Greater
        } else {
            match (&other.suffix, &self.suffix) {
                (None, None) => Order::Equal,
                (None, Some(_)) => Order::Less,
                (Some(_), None) => Order::Greater,
                (Some(x), Some(y)) => compare(x.as_str(), y.as_str()),
            }
        }
    }

    /// Whether this version and `other` have the same numbers and suffix.
    pub fn same(&self, other: &Version) -> (r: bool)
        ensures
            r == (self@ == other@),
    {
        self.major == other.major && self.minor == other.minor && self.patch == other.patch
            && match (&self.suffix, &other.suffix) {
            (None, None) => true,
            (Some(x), Some(y)) => same_text(x.as_str(), y.as_str()),
            _ => false,
        }
    }
}

impl Change {
    /// Reads a change: `major`, `minor`, `patch`, or else a version.
    pub fn parse(s: &str) -> (r: Result<Change, Error>)
        ensures
            match r {
                Ok(c) => parse_change_spec(s@) == Ok::<ChangeView, VersionFault>(c@),
                Err(e) => parse_change_spec(s@) matches Err(f) && reports(e, f, s@),
            },
    {
        if same_text(s, "major") {
            Ok(Change::Major)
        } else if same_text(s, "minor") {
            Ok(Change::Minor)
        } else if same_text(s, "patch") {
            Ok(Change::Patch)
        } else {
            match Version::parse(s) {
                Ok(v) => Ok(Change::Custom(v)),
                Err(e) => Err(e),
            }
        }
    }
}

/// The text of a version is read back as that version, unless its suffix
/// holds a `-`.
pub proof fn lemma_text_parses(v: VersionView)
    requires
        match v.suffix {
            Some(s) => !s.contains('-'),
            None => true,
        },
    ensures
        parse_spec(version_text(v)) == Ok::<VersionView, VersionFault>(v),
{
    let a = decimal_text(v.major as nat);
    let b = decimal_text(v.minor as nat);
    let c = decimal_text(v.patch as nat);
    let numbers = a + seq!['.'] + b + seq!['.'] + c;
    let text = version_text(v);
    lemma_decimal_text_digits(v.major as nat);
    lemma_decimal_text_digits(v.minor as nat);
    lemma_decimal_text_digits(v.patch as nat);
    lemma_decimal_round_trip(v.major);
    lemma_decimal_round_trip(v.minor);
    lemma_decimal_round_trip(v.patch);
    assert forall|x: Seq<char>, ch: char|
        (forall|i: int| 0 <= i < x.len() ==> is_digit(#[trigger] x[i])) && !is_digit(
            ch,
        ) implies !x.contains(ch) by {
        if x.contains(ch) {
            let i = choose|i: int| 0 <= i < x.len() && x[i] == ch;
            assert(is_digit(x[i]));
        }
    }
    assert(!a.contains('.') && !b.contains('.') && !c.contains('.'));
    assert(!a.contains('-') && !b.contains('-') && !c.contains('-'));
    let tail = b + seq!['.'] + c;
    assert(numbers =~= a + seq!['.'] + tail);
    lemma_split_first(a, '.', tail);
    assert(tail =~= b + seq!['.'] + c);
    lemma_split_first(b, '.', c);
    lemma_split_whole(c, '.');
    assert(split_spec(numbers, '.') =~= seq![a, b, c]);
    assert(!numbers.contains('-')) by {
        if numbers.contains('-') {
            let i = choose|i: int| 0 <= i < numbers.len() && numbers[i] == '-';
            if i < a.len() {
                assert(a.contains(a[i]));
            } else if i == a.len() {
            } else if i < a.len() + 1 + b.len() {
                assert(b.contains(b[i - a.len() - 1]));
            } else if i == a.len() + 1 + b.len() {
            } else {
                assert(c.contains(c[i - a.len() - b.len() - 2]));
            }
        }
    }
    assert(text[0] == a[0]);
    assert(is_digit(text[0]));
    assert(text != seq!['*']) by {
        assert(seq!['*'][0] == '*');
    }
    match v.suffix {
        Some(s) => {
            assert(text =~= numbers + seq!['-'] + s);
            lemma_split_first(numbers, '-', s);
            lemma_split_whole(s, '-');
            assert(split_spec(text, '-') =~= seq![numbers, s]);
        },
        None => {
            lemma_split_whole(numbers, '-');
        },
    }
}

} // verus!
