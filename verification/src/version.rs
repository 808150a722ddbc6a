//! Version normalization: a raw, possibly four-segment version string becomes
//! a canonical three-segment-plus-prerelease semantic version.
//!
//! A raw string with exactly four dot-separated segments `A.B.C.D` is
//! rewritten to `A.B.C-D` (the fourth segment becomes a pre-release label);
//! every other string is handed unchanged to a lenient semantic-version
//! parser.

use vstd::prelude::*;

verus! {

use vstd::string::StrSliceExecFns;
use vstd::string::StringExecFns;

/// A canonical version: numeric `major.minor.patch` plus an optional
/// pre-release label, the label split at its dots into identifiers.
///
/// The numeric parts are held as the parser produces them, in `i64`; the
/// lenient grammar only ever yields non-negative values. `prerelease` is
/// `None` for a plain release; `Some` identifiers order the version before
/// the same `major.minor.patch` without them.
#[derive(Debug, PartialEq, Eq)]
pub struct CanonicalVersion {
    pub major: i64,
    pub minor: i64,
    pub patch: i64,
    pub prerelease: Option<Vec<String>>,
}

/// The mathematical value of a [`CanonicalVersion`].
pub ghost struct SpecVersion {
    pub major: int,
    pub minor: int,
    pub patch: int,
    pub prerelease: Option<Seq<Seq<char>>>,
}

impl View for CanonicalVersion {
    type V = SpecVersion;

    open spec fn view(&self) -> SpecVersion {
        SpecVersion {
            major: self.major as int,
            minor: self.minor as int,
            patch: self.patch as int,
            prerelease: self.prerelease.deep_view(),
        }
    }
}

impl DeepView for CanonicalVersion {
    type V = SpecVersion;

    open spec fn deep_view(&self) -> SpecVersion {
        self.view()
    }
}

/// A raw version string (after rewriting) that the lenient parser does not
/// accept as a concrete version.
#[derive(Debug, Clone, Copy, PartialEq, Eq, Structural)]
pub struct NormalizeError {}

/// Everything the lenient parser yields for one input string: the numeric
/// parts and pre-release identifiers, together with the parser's two marker
/// flags. `empty` marks a string the version grammar does not match at all;
/// `any` marks a wildcard. Neither marker denotes a concrete version.
pub struct ParsedVersion {
    pub empty: bool,
    pub any: bool,
    pub major: i64,
    pub minor: i64,
    pub patch: i64,
    pub prerelease: Option<Vec<String>>,
}

/// The mathematical value of a [`ParsedVersion`].
pub ghost struct SpecParsedVersion {
    pub empty: bool,
    pub any: bool,
    pub major: int,
    pub minor: int,
    pub patch: int,
    pub prerelease: Option<Seq<Seq<char>>>,
}

impl View for ParsedVersion {
    type V = SpecParsedVersion;

    open spec fn view(&self) -> SpecParsedVersion {
        SpecParsedVersion {
            empty: self.empty,
            any: self.any,
            major: self.major as int,
            minor: self.minor as int,
            patch: self.patch as int,
            prerelease: self.prerelease.deep_view(),
        }
    }
}

/// What the lenient semantic-version parser yields for a given sequence of
/// characters: `None` when parsing fails outright (a numeric part overflows
/// the parser's integer type), `Some` otherwise, markers included.
pub uninterp spec fn lenient_parse(s: Seq<char>) -> Option<SpecParsedVersion>;

/// Relies on `semver_rs::Version::parse` with the `loose` and
/// `include_prerelease` options set: the result is a function of the input
/// characters alone. Per its source, a string the loose grammar does not
/// match yields the `empty` marker and a wildcard yields the `any` marker,
/// both inside `Ok`; `Err` arises only when a numeric part overflows `i64`.
#[verifier::external_body]
fn parse_lenient(raw: &str) -> (r: Result<ParsedVersion, NormalizeError>)
    ensures
        match r {
            Ok(p) => lenient_parse(raw@) == Some(p@),
            Err(_) => lenient_parse(raw@) == None::<SpecParsedVersion>,
        },
{
    let opts = semver_rs::Options::builder().loose(true).include_prerelease(true).build();
    match semver_rs::Version::new(raw).with_options(opts).parse() {
        Ok(v) => Ok(ParsedVersion {
            empty: v.is_empty(),
            any: v.is_any(),
            major: v.major,
            minor: v.minor,
            patch: v.patch,
            prerelease: v.prerelease,
        }),
        Err(_) => Err(NormalizeError {}),
    }
}

/// Keeps a parse only when it denotes a concrete version: the markers and an
/// outright parse failure are all rejected.
pub open spec fn spec_accept(p: Option<SpecParsedVersion>) -> Option<SpecVersion> {
    match p {
        None => None,
        Some(pv) => if pv.empty || pv.any {
            None
        } else {
            Some(
                SpecVersion {
                    major: pv.major,
                    minor: pv.minor,
                    patch: pv.patch,
                    prerelease: pv.prerelease,
                },
            )
        },
    }
}

/// How many `.` characters a sequence holds.
pub open spec fn dot_count(s: Seq<char>) -> nat
    decreases s.len(),
{
    if s.len() == 0 {
        0
    } else {
        dot_count(s.drop_last()) + if s.last() == '.' {
            1nat
        } else {
            0nat
        }
    }
}

/// The index of the last `.` in a sequence, or `-1` when there is none.
pub open spec fn last_dot(s: Seq<char>) -> int
    decreases s.len(),
{
    if s.len() == 0 {
        -1
    } else if s.last() == '.' {
        s.len() - 1
    } else {
        last_dot(s.drop_last())
    }
}

/// The rewrite a raw version string undergoes before parsing: a string of
/// exactly four dot-separated segments has its last dot replaced by `-`, so
/// the fourth segment becomes a pre-release label; any other string is kept.
pub open spec fn spec_rewrite(s: Seq<char>) -> Seq<char> {
    if dot_count(s) == 3 {
        s.update(last_dot(s), '-')
    } else {
        s
    }
}

/// What normalization yields: the lenient parse of the rewritten string,
/// kept only when it denotes a concrete version.
pub open spec fn spec_normalize(s: Seq<char>) -> Option<SpecVersion> {
    spec_accept(lenient_parse(spec_rewrite(s)))
}

/// The lenient parse of a string taken as it stands, with no rewrite.
pub open spec fn spec_parse_direct(s: Seq<char>) -> Option<SpecVersion> {
    spec_accept(lenient_parse(s))
}

/// Parses a string as it stands and keeps only a concrete version.
fn finish_parse(s: &str) -> (r: Result<CanonicalVersion, NormalizeError>)
    ensures
        match r {
            Ok(v) => spec_parse_direct(s@) == Some(v@),
            Err(_) => spec_parse_direct(s@) is None,
        },
{
    match parse_lenient(s) {
        Err(e) => Err(e),
        Ok(p) => {
            if p.empty || p.any {
                Err(NormalizeError {})
            } else {
                Ok(
                    CanonicalVersion {
                        major: p.major,
                        minor: p.minor,
                        patch: p.patch,
                        prerelease: p.prerelease,
                    },
                )
            }
        },
    }
}

proof fn lemma_dot_count_concat(x: Seq<char>, y: Seq<char>)
    ensures
        dot_count(x + y) == dot_count(x) + dot_count(y),
    decreases y.len(),
{
    if y.len() == 0 {
        assert(x + y =~= x);
    } else {
        assert((x + y).drop_last() =~= x + y.drop_last());
        lemma_dot_count_concat(x, y.drop_last());
    }
}

proof fn lemma_last_dot_concat_nodot(x: Seq<char>, y: Seq<char>)
    requires
        dot_count(y) == 0,
    ensures
        last_dot(x + y) == last_dot(x),
    decreases y.len(),
{
    if y.len() == 0 {
        assert(x + y =~= x);
    } else {
        assert(dot_count(y.drop_last()) == 0);
        assert((x + y).drop_last() =~= x + y.drop_last());
        lemma_last_dot_concat_nodot(x, y.drop_last());
    }
}

proof fn lemma_last_dot_append_dot(x: Seq<char>)
    ensures
        last_dot(x + seq!['.']) == x.len(),
{
    assert((x + seq!['.']).last() == '.');
}

/// Normalization is the identity on every raw string that does not have
/// exactly four dot-separated segments: such a string is parsed as it
/// stands, so it keeps the comparison order of a direct parse.
pub proof fn lemma_normalize_passthrough(s: Seq<char>)
    requires
        dot_count(s) != 3,
    ensures
        spec_normalize(s) == spec_parse_direct(s),
{
}

/// A raw string of exactly four dot-separated segments `A.B.C.D`, none of
/// which holds a dot itself, normalizes exactly as parsing `A.B.C-D`
/// directly.
pub proof fn lemma_normalize_four_segments(a: Seq<char>, b: Seq<char>, c: Seq<char>, d: Seq<char>)
    requires
        dot_count(a) == 0,
        dot_count(b) == 0,
        dot_count(c) == 0,
        dot_count(d) == 0,
    ensures
        spec_normalize(a + seq!['.'] + b + seq!['.'] + c + seq!['.'] + d) == spec_parse_direct(
            a + seq!['.'] + b + seq!['.'] + c + seq!['-'] + d,
        ),
{
    let head = a + seq!['.'] + b + seq!['.'] + c;
    let dotted = head + seq!['.'] + d;
    let dashed = head + seq!['-'] + d;
    assert(dot_count(seq!['.']) == 1) by {
        assert(seq!['.'].len() == 1);
        assert(seq!['.'].last() == '.');
        assert(seq!['.'].drop_last() =~= Seq::<char>::empty());
        assert(dot_count(Seq::<char>::empty()) == 0);
    }
    lemma_dot_count_concat(a, seq!['.']);
    lemma_dot_count_concat(a + seq!['.'], b);
    lemma_dot_count_concat(a + seq!['.'] + b, seq!['.']);
    lemma_dot_count_concat(a + seq!['.'] + b + seq!['.'], c);
    lemma_dot_count_concat(head, seq!['.']);
    lemma_dot_count_concat(head + seq!['.'], d);
    assert(dot_count(dotted) == 3);
    lemma_last_dot_concat_nodot(head + seq!['.'], d);
    lemma_last_dot_append_dot(head);
    assert(last_dot(dotted) == head.len());
    assert(spec_rewrite(dotted) =~= dashed) by {
        assert(dotted.update(head.len() as int, '-') =~= dashed);
    }
    assert(a + seq!['.'] + b + seq!['.'] + c + seq!['.'] + d =~= dotted);
    assert(a + seq!['.'] + b + seq!['.'] + c + seq!['-'] + d =~= dashed);
}

/// Derives the canonical version of a raw version string: a string of exactly
/// four dot-separated segments `A.B.C.D` is read as `A.B.C-D`; every other
/// string is read as it stands, under lenient semantic-version rules. Fails
/// exactly when the (possibly rewritten) string does not denote a concrete
/// version.
pub fn normalize(raw: &str) -> (r: Result<CanonicalVersion, NormalizeError>)
    ensures
        match r {
            Ok(v) => spec_normalize(raw@) == Some(v@),
            Err(_) => spec_normalize(raw@) is None,
        },
{
    let n = raw.unicode_len();
    let mut i: usize = 0;
    let mut dots: usize = 0;
    let mut last: usize = 0;
    while i < n
        invariant
            i <= n,
            n == raw@.len(),
            dots == dot_count(raw@.subrange(0, i as int)),
            dots <= i,
            dots > 0 ==> last < i && raw@[last as int] == '.' && last as int == last_dot(
                raw@.subrange(0, i as int),
            ),
            dots == 0 ==> last_dot(raw@.subrange(0, i as int)) == -1,
        decreases n - i,
    {
        let c = raw.get_char(i);
        proof {
            assert(raw@.subrange(0, i + 1).drop_last() =~= raw@.subrange(0, i as int));
        }
        if c == '.' {
            dots = dots + 1;
            last = i;
        }
        i = i + 1;
    }
    proof {
        assert(raw@.subrange(0, n as int) =~= raw@);
    }
    if dots == 3 {
        let mut w: String = raw.substring_char(0, last).to_owned();
        w.append("-");
        w.append(raw.substring_char(last + 1, n));
        proof {
            reveal_strlit("-");
            assert(w@ =~= raw@.update(last as int, '-'));
        }
        finish_parse(w.as_str())
    } else {
        finish_parse(raw)
    }
}

} // verus!
