//! Semantic versions as plain values, and the calls into `semver` that parse
//! and order them.

use vstd::prelude::*;
use vstd::string::*;

verus! {

/// A SemVer 2.0 version: the numeric triple, the pre-release tag and the
/// build metadata, both as text (empty when absent).
#[derive(Debug)]
pub struct Version {
    pub major: u64,
    pub minor: u64,
    pub patch: u64,
    pub pre: String,
    pub build: String,
}

/// The mathematical value of a [`Version`].
pub struct VersionView {
    pub major: u64,
    pub minor: u64,
    pub patch: u64,
    pub pre: Seq<char>,
    pub build: Seq<char>,
}

impl View for Version {
    type V = VersionView;

    open spec fn view(&self) -> VersionView {
        VersionView {
            major: self.major,
            minor: self.minor,
            patch: self.patch,
            pre: self.pre@,
            build: self.build@,
        }
    }
}

/// What `semver::Version::parse` makes of a text: the parsed version, or
/// `None` where the text is rejected.
pub uninterp spec fn parsed_version(text: Seq<char>) -> Option<VersionView>;

/// How `semver` orders two versions: negative where the first comes first,
/// zero where they rank equal, positive where the second comes first.
pub uninterp spec fn version_order(a: VersionView, b: VersionView) -> int;

/// The character of a decimal digit.
pub open spec fn digit_char(d: int) -> char {
    if d == 0 {
        '0'
    } else if d == 1 {
        '1'
    } else if d == 2 {
        '2'
    } else if d == 3 {
        '3'
    } else if d == 4 {
        '4'
    } else if d == 5 {
        '5'
    } else if d == 6 {
        '6'
    } else if d == 7 {
        '7'
    } else if d == 8 {
        '8'
    } else {
        '9'
    }
}

/// A number in decimal, without leading zeros.
pub open spec fn decimal(n: nat) -> Seq<char>
    decreases n,
{
    if n < 10 {
        seq![digit_char(n as int)]
    } else {
        decimal(n / 10).push(digit_char((n % 10) as int))
    }
}

/// A tag behind its mark; nothing for an absent tag.
pub open spec fn marked(mark: char, tag: Seq<char>) -> Seq<char> {
    if tag.len() == 0 {
        tag
    } else {
        seq![mark] + tag
    }
}

/// A version as text: the triple in decimal with dots between, the
/// pre-release tag behind `-` and the build metadata behind `+`, each only
/// where present.
pub open spec fn version_text(v: VersionView) -> Seq<char> {
    decimal(v.major as nat) + seq!['.'] + decimal(v.minor as nat) + seq!['.'] + decimal(
        v.patch as nat,
    ) + marked('-', v.pre) + marked('+', v.build)
}

/// The first version's numeric triple comes before the second's.
pub open spec fn triple_precedes(a: VersionView, b: VersionView) -> bool {
    a.major < b.major || (a.major == b.major && (a.minor < b.minor || (a.minor == b.minor
        && a.patch < b.patch)))
}

#[verifier::external_type_specification]
#[verifier::external_body]
pub struct ExSemverError(semver::Error);

/// Calls `semver::Version::parse` and copies the parsed fields out.
/// The contract only names the outcome: which texts parse, and to what, is
/// left to `semver`.
#[verifier::external_body]
pub(crate) fn parse_semver(text: &str) -> (r: Result<Version, semver::Error>)
    ensures
        match r {
            Ok(v) => parsed_version(text@) == Some(v@),
            Err(_) => parsed_version(text@) is None,
        },
{
    match semver::Version::parse(text) {
        Ok(v) => Ok(Version {
            major: v.major,
            minor: v.minor,
            patch: v.patch,
            pre: v.pre.as_str().to_string(),
            build: v.build.as_str().to_string(),
        }),
        Err(e) => Err(e),
    }
}

/// Calls `Ord::cmp` of `semver::Version` on the two versions, rebuilt field by
/// field (a tag that `semver` rejects counts as absent), and gives the
/// ordering as -1, 0 or 1.
///
/// Besides naming the outcome, the contract claims what `Ord` documents of
/// every implementation, and what the derived impl on `semver::Version` does:
/// swapping the arguments negates the result, equal values rank equal, the
/// numeric triple decides before the tags, and the order is transitive: what
/// ranks no higher than the lower of the two ranks no higher than the other,
/// and what the higher ranks no higher than, the lower does not either.
#[verifier::external_body]
pub(crate) fn rank_versions(a: &Version, b: &Version) -> (r: i8)
    ensures
        -1 <= r <= 1,
        r == version_order(a@, b@),
        version_order(b@, a@) == -r,
        a@ == b@ ==> r == 0,
        triple_precedes(a@, b@) ==> r == -1,
        triple_precedes(b@, a@) ==> r == 1,
        forall|c: VersionView|
            r >= 0 && #[trigger] version_order(a@, c) <= 0 ==> version_order(b@, c) <= 0,
        forall|c: VersionView|
            r >= 0 && #[trigger] version_order(c, b@) <= 0 ==> version_order(c, a@) <= 0,
{
    let x = semver::Version {
        major: a.major, minor: a.minor, patch: a.patch,
        pre: semver::Prerelease::new(&a.pre).unwrap_or_default(),
        build: semver::BuildMetadata::new(&a.build).unwrap_or_default(),
    };
    let y = semver::Version {
        major: b.major, minor: b.minor, patch: b.patch,
        pre: semver::Prerelease::new(&b.pre).unwrap_or_default(),
        build: semver::BuildMetadata::new(&b.build).unwrap_or_default(),
    };
    match x.cmp(&y) {
        std::cmp::Ordering::Less => -1,
        std::cmp::Ordering::Equal => 0,
        std::cmp::Ordering::Greater => 1,
    }
}

/// One decimal digit as text.
pub fn digit_text(d: u64) -> (r: &'static str)
    requires
        d < 10,
    ensures
        r@ == seq![digit_char(d as int)],
{
    proof {
        reveal_strlit("0");
        reveal_strlit("1");
        reveal_strlit("2");
        reveal_strlit("3");
        reveal_strlit("4");
        reveal_strlit("5");
        reveal_strlit("6");
        reveal_strlit("7");
        reveal_strlit("8");
        reveal_strlit("9");
    }
    let r = if d == 0 {
        "0"
    } else if d == 1 {
        "1"
    } else if d == 2 {
        "2"
    } else if d == 3 {
        "3"
    } else if d == 4 {
        "4"
    } else if d == 5 {
        "5"
    } else if d == 6 {
        "6"
    } else if d == 7 {
        "7"
    } else if d == 8 {
        "8"
    } else {
        "9"
    };
    assert(r@ =~= seq![digit_char(d as int)]);
    r
}

/// Writes a number in decimal behind a text.
pub fn write_decimal(out: &mut String, n: u64)
    ensures
        final(out)@ == old(out)@ + decimal(n as nat),
    decreases n,
{
    if n < 10 {
        out.append(digit_text(n));
    } else {
        write_decimal(out, n / 10);
        out.append(digit_text(n % 10));
        assert(out@ =~= old(out)@ + decimal(n as nat));
    }
}

/// Writes a tag behind its mark; nothing for an absent tag.
pub fn write_marked(out: &mut String, mark: &str, tag: &String)
    requires
        mark@.len() == 1,
    ensures
        final(out)@ == old(out)@ + marked(mark@[0], tag@),
{
    if !tag.as_str().is_empty() {
        out.append(mark);
        out.append(tag.as_str());
    }
    assert(out@ =~= old(out)@ + marked(mark@[0], tag@));
}

/// Why a text was refused when a version or a requirement was built from it.
#[derive(Debug)]
pub enum ParseError {
    /// The text is no SemVer 2.0 version.
    InvalidVersion(String),
    /// The text is no SemVer range expression.
    InvalidRequirement(String),
}

/// The mathematical value of a [`ParseError`].
pub enum ErrorView {
    InvalidVersion(Seq<char>),
    InvalidRequirement(Seq<char>),
}

impl View for ParseError {
    type V = ErrorView;

    open spec fn view(&self) -> ErrorView {
        match self {
            ParseError::InvalidVersion(t) => ErrorView::InvalidVersion(t@),
            ParseError::InvalidRequirement(t) => ErrorView::InvalidRequirement(t@),
        }
    }
}

impl Clone for Version {
    fn clone(&self) -> (r: Self)
        ensures
            r@ == self@,
    {
        Version {
            major: self.major,
            minor: self.minor,
            patch: self.patch,
            pre: self.pre.clone(),
            build: self.build.clone(),
        }
    }
}

impl Version {
    /// Whether the version carries a pre-release tag.
    pub open spec fn spec_is_prerelease(&self) -> bool {
        self.pre@.len() > 0
    }

    /// Parses a SemVer 2.0 version. A text that `semver` rejects is handed
    /// back in `InvalidVersion`.
    pub fn parse(text: &str) -> (r: Result<Version, ParseError>)
        ensures
            match r {
                Ok(v) => parsed_version(text@) == Some(v@),
                Err(e) => parsed_version(text@) is None && e@ == ErrorView::InvalidVersion(text@),
            },
    {
        match parse_semver(text) {
            Ok(v) => Ok(v),
            Err(_) => Err(ParseError::InvalidVersion(text.to_owned())),
        }
    }

    /// Whether the version carries a pre-release tag.
    #[verifier::when_used_as_spec(spec_is_prerelease)]
    pub fn is_prerelease(&self) -> (r: bool)
        ensures
            r == (self.pre@.len() > 0),
    {
        !self.pre.as_str().is_empty()
    }

    /// The version as text: `1.2.3`, `1.2.3-rc.1`, `1.2.3-rc.1+build`.
    pub fn to_text(&self) -> (r: String)
        ensures
            r@ == version_text(self@),
    {
        proof {
            reveal_strlit(".");
            reveal_strlit("-");
            reveal_strlit("+");
        }
        let mut out = String::new();
        write_decimal(&mut out, self.major);
        out.append(".");
        write_decimal(&mut out, self.minor);
        out.append(".");
        write_decimal(&mut out, self.patch);
        write_marked(&mut out, "-", &self.pre);
        write_marked(&mut out, "+", &self.build);
        assert(out@ =~= version_text(self@));
        out
    }

    /// Whether two versions are the same in every field, build metadata included.
    pub fn same_as(&self, other: &Version) -> (r: bool)
        ensures
            r == (self@ == other@),
    {
        self.major == other.major && self.minor == other.minor && self.patch == other.patch
            && self.pre == other.pre && self.build == other.build
    }

    /// Orders two versions as `semver` does: -1 where `self` comes first, 0
    /// where they rank equal, 1 where `other` comes first.
    pub fn rank(&self, other: &Version) -> (r: i8)
        ensures
            r == version_order(self@, other@),
            -1 <= r <= 1,
            triple_precedes(self@, other@) ==> r == -1,
            triple_precedes(other@, self@) ==> r == 1,
            self@ == other@ ==> r == 0,
    {
        rank_versions(self, other)
    }
}

} // verus!
