//! Total order on canonical versions, by semantic-version precedence:
//! `major`, `minor`, `patch` compare numerically; a version carrying a
//! pre-release label orders before the same triple without one; pre-release
//! identifiers compare pairwise, numeric identifiers by value, alphanumeric
//! ones lexically, and a numeric identifier always below an alphanumeric one.

use vstd::prelude::*;

verus! {

use vstd::string::StrSliceExecFns;
use crate::version::CanonicalVersion;
use crate::version::SpecVersion;

/// The outcome of comparing two versions.
#[derive(Debug, Clone, Copy, PartialEq, Eq, Structural)]
pub enum VersionOrder {
    Less,
    Equal,
    Greater,
}

/// The outcome read in the other direction.
pub open spec fn flip(o: VersionOrder) -> VersionOrder {
    match o {
        VersionOrder::Less => VersionOrder::Greater,
        VersionOrder::Equal => VersionOrder::Equal,
        VersionOrder::Greater => VersionOrder::Less,
    }
}

/// Numeric comparison, as an outcome.
pub open spec fn cmp_int(a: int, b: int) -> VersionOrder {
    if a < b {
        VersionOrder::Less
    } else if a == b {
        VersionOrder::Equal
    } else {
        VersionOrder::Greater
    }
}

/// A decimal digit.
pub open spec fn is_digit(c: char) -> bool {
    '0' as int <= c as int <= '9' as int
}

/// The value of a decimal digit.
pub open spec fn digit_val(c: char) -> int {
    c as int - '0' as int
}

/// A numeric identifier: nonempty and made of decimal digits only.
pub open spec fn is_numeric_id(s: Seq<char>) -> bool {
    s.len() > 0 && forall|i: int| 0 <= i < s.len() ==> is_digit(#[trigger] s[i])
}

/// Ten to the `n`th.
pub open spec fn pow10(n: nat) -> int
    decreases n,
{
    if n == 0 {
        1
    } else {
        10 * pow10((n - 1) as nat)
    }
}

/// The number a digit sequence denotes in decimal.
pub open spec fn num_val(s: Seq<char>) -> int
    decreases s.len(),
{
    if s.len() == 0 {
        0
    } else {
        digit_val(s[0]) * pow10((s.len() - 1) as nat) + num_val(s.skip(1))
    }
}

/// Lexicographic comparison of character sequences, by character code; a
/// proper prefix orders below its extensions.
pub open spec fn cmp_lex(a: Seq<char>, b: Seq<char>) -> VersionOrder
    decreases a.len(),
{
    if a.len() == 0 && b.len() == 0 {
        VersionOrder::Equal
    } else if a.len() == 0 {
        VersionOrder::Less
    } else if b.len() == 0 {
        VersionOrder::Greater
    } else if (a[0] as int) < (b[0] as int) {
        VersionOrder::Less
    } else if (a[0] as int) > (b[0] as int) {
        VersionOrder::Greater
    } else {
        cmp_lex(a.skip(1), b.skip(1))
    }
}

/// Comparison of two pre-release identifiers: numeric ones by value, a
/// numeric one below an alphanumeric one, alphanumeric ones lexically.
pub open spec fn cmp_id(a: Seq<char>, b: Seq<char>) -> VersionOrder {
    if is_numeric_id(a) && is_numeric_id(b) {
        cmp_int(num_val(a), num_val(b))
    } else if is_numeric_id(a) {
        VersionOrder::Less
    } else if is_numeric_id(b) {
        VersionOrder::Greater
    } else {
        cmp_lex(a, b)
    }
}

/// Comparison of two pre-release identifier lists, pairwise from the front;
/// a proper prefix orders below its extensions.
pub open spec fn cmp_ids(a: Seq<Seq<char>>, b: Seq<Seq<char>>) -> VersionOrder
    decreases a.len(),
{
    if a.len() == 0 && b.len() == 0 {
        VersionOrder::Equal
    } else if a.len() == 0 {
        VersionOrder::Less
    } else if b.len() == 0 {
        VersionOrder::Greater
    } else {
        match cmp_id(a[0], b[0]) {
            VersionOrder::Equal => cmp_ids(a.skip(1), b.skip(1)),
            o => o,
        }
    }
}

/// Comparison of the pre-release parts: a version with a pre-release label
/// orders before the same triple without one.
pub open spec fn cmp_pre(a: Option<Seq<Seq<char>>>, b: Option<Seq<Seq<char>>>) -> VersionOrder {
    match (a, b) {
        (Option::Some(x), Option::Some(y)) => cmp_ids(x, y),
        (Option::Some(x), Option::None) => VersionOrder::Less,
        (Option::None, Option::Some(y)) => VersionOrder::Greater,
        (Option::None, Option::None) => VersionOrder::Equal,
    }
}

/// Semantic-version precedence on canonical versions.
pub open spec fn spec_compare(a: SpecVersion, b: SpecVersion) -> VersionOrder {
    if a.major != b.major {
        cmp_int(a.major, b.major)
    } else if a.minor != b.minor {
        cmp_int(a.minor, b.minor)
    } else if a.patch != b.patch {
        cmp_int(a.patch, b.patch)
    } else {
        cmp_pre(a.prerelease, b.prerelease)
    }
}

fn is_numeric_exec(s: &str) -> (b: bool)
    ensures
        b == is_numeric_id(s@),
{
    let n = s.unicode_len();
    if n == 0 {
        return false;
    }
    let mut i: usize = 0;
    while i < n
        invariant
            i <= n,
            n == s@.len(),
            n > 0,
            forall|j: int| 0 <= j < i ==> is_digit(#[trigger] s@[j]),
        decreases n - i,
    {
        let c = s.get_char(i);
        let u = c as u32;
        if u < '0' as u32 || u > '9' as u32 {
            proof {
                assert(!is_digit(s@[i as int]));
            }
            return false;
        }
        i = i + 1;
    }
    true
}

fn cmp_lex_exec(a: &str, b: &str) -> (r: VersionOrder)
    ensures
        r == cmp_lex(a@, b@),
{
    let an = a.unicode_len();
    let bn = b.unicode_len();
    let mut i: usize = 0;
    proof {
        assert(a@.skip(0) =~= a@);
        assert(b@.skip(0) =~= b@);
    }
    loop
        invariant
            i <= an,
            i <= bn,
            an == a@.len(),
            bn == b@.len(),
            cmp_lex(a@, b@) == cmp_lex(a@.skip(i as int), b@.skip(i as int)),
        decreases an - i,
    {
        if i >= an && i >= bn {
            return VersionOrder::Equal;
        }
        if i >= an {
            return VersionOrder::Less;
        }
        if i >= bn {
            return VersionOrder::Greater;
        }
        let ca = a.get_char(i);
        let cb = b.get_char(i);
        proof {
            assert(a@.skip(i as int)[0] == a@[i as int]);
            assert(b@.skip(i as int)[0] == b@[i as int]);
        }
        if (ca as u32) < (cb as u32) {
            return VersionOrder::Less;
        }
        if (ca as u32) > (cb as u32) {
            return VersionOrder::Greater;
        }
        proof {
            assert(a@.skip(i as int).skip(1) =~= a@.skip(i as int + 1));
            assert(b@.skip(i as int).skip(1) =~= b@.skip(i as int + 1));
        }
        i = i + 1;
    }
}

fn leading_zeros(s: &str) -> (z: usize)
    ensures
        z <= s@.len(),
        forall|j: int| 0 <= j < z ==> s@[j] == '0',
        z < s@.len() ==> s@[z as int] != '0',
{
    let n = s.unicode_len();
    let mut i: usize = 0;
    while i < n
        invariant
            i <= n,
            n == s@.len(),
            forall|j: int| 0 <= j < i ==> s@[j] == '0',
        decreases n - i,
    {
        if s.get_char(i) != '0' {
            return i;
        }
        i = i + 1;
    }
    n
}

fn cmp_numeric_exec(a: &str, b: &str) -> (r: VersionOrder)
    requires
        is_numeric_id(a@),
        is_numeric_id(b@),
    ensures
        r == cmp_int(num_val(a@), num_val(b@)),
{
    let an = a.unicode_len();
    let bn = b.unicode_len();
    let za = leading_zeros(a);
    let zb = leading_zeros(b);
    proof {
        lemma_skip_zeros(a@, za as int);
        lemma_skip_zeros(b@, zb as int);
        assert(forall|j: int|
            0 <= j < a@.skip(za as int).len() ==> is_digit(#[trigger] a@.skip(za as int)[j]));
        assert(forall|j: int|
            0 <= j < b@.skip(zb as int).len() ==> is_digit(#[trigger] b@.skip(zb as int)[j]));
    }
    let ha = an - za;
    let hb = bn - zb;
    if ha < hb {
        proof {
            lemma_val_shorter(a@.skip(za as int), b@.skip(zb as int));
        }
        VersionOrder::Less
    } else if ha > hb {
        proof {
            lemma_val_shorter(b@.skip(zb as int), a@.skip(za as int));
        }
        VersionOrder::Greater
    } else {
        let r = cmp_lex_exec(a.substring_char(za, an), b.substring_char(zb, bn));
        proof {
            assert(a@.subrange(za as int, an as int) =~= a@.skip(za as int));
            assert(b@.subrange(zb as int, bn as int) =~= b@.skip(zb as int));
            lemma_lex_same_len_val(a@.skip(za as int), b@.skip(zb as int));
        }
        r
    }
}

fn cmp_id_exec(a: &str, b: &str) -> (r: VersionOrder)
    ensures
        r == cmp_id(a@, b@),
{
    let na = is_numeric_exec(a);
    let nb = is_numeric_exec(b);
    if na && nb {
        cmp_numeric_exec(a, b)
    } else if na {
        VersionOrder::Less
    } else if nb {
        VersionOrder::Greater
    } else {
        cmp_lex_exec(a, b)
    }
}

fn cmp_ids_exec(a: &Vec<String>, b: &Vec<String>) -> (r: VersionOrder)
    ensures
        r == cmp_ids(a.deep_view(), b.deep_view()),
{
    let an = a.len();
    let bn = b.len();
    let mut i: usize = 0;
    proof {
        assert(a.deep_view().skip(0) =~= a.deep_view());
        assert(b.deep_view().skip(0) =~= b.deep_view());
    }
    loop
        invariant
            i <= an,
            i <= bn,
            an == a@.len(),
            bn == b@.len(),
            cmp_ids(a.deep_view(), b.deep_view()) == cmp_ids(
                a.deep_view().skip(i as int),
                b.deep_view().skip(i as int),
            ),
        decreases an - i,
    {
        if i >= an && i >= bn {
            return VersionOrder::Equal;
        }
        if i >= an {
            return VersionOrder::Less;
        }
        if i >= bn {
            return VersionOrder::Greater;
        }
        proof {
            assert(a.deep_view().skip(i as int)[0] == a.deep_view()[i as int]);
            assert(b.deep_view().skip(i as int)[0] == b.deep_view()[i as int]);
            assert(a.deep_view()[i as int] == a@[i as int]@);
            assert(b.deep_view()[i as int] == b@[i as int]@);
        }
        let o = cmp_id_exec(a[i].as_str(), b[i].as_str());
        if !matches!(o, VersionOrder::Equal) {
            return o;
        }
        proof {
            assert(a.deep_view().skip(i as int).skip(1) =~= a.deep_view().skip(i as int + 1));
            assert(b.deep_view().skip(i as int).skip(1) =~= b.deep_view().skip(i as int + 1));
        }
        i = i + 1;
    }
}

/// Total-orders two canonical versions by semantic-version precedence.
pub fn compare(a: &CanonicalVersion, b: &CanonicalVersion) -> (r: VersionOrder)
    ensures
        r == spec_compare(a@, b@),
{
    if a.major != b.major {
        if a.major < b.major {
            VersionOrder::Less
        } else {
            VersionOrder::Greater
        }
    } else if a.minor != b.minor {
        if a.minor < b.minor {
            VersionOrder::Less
        } else {
            VersionOrder::Greater
        }
    } else if a.patch != b.patch {
        if a.patch < b.patch {
            VersionOrder::Less
        } else {
            VersionOrder::Greater
        }
    } else {
        match (&a.prerelease, &b.prerelease) {
            (Option::Some(x), Option::Some(y)) => cmp_ids_exec(x, y),
            (Option::Some(_), Option::None) => VersionOrder::Less,
            (Option::None, Option::Some(_)) => VersionOrder::Greater,
            (Option::None, Option::None) => VersionOrder::Equal,
        }
    }
}

proof fn lemma_cmp_lex_flip(a: Seq<char>, b: Seq<char>)
    ensures
        cmp_lex(b, a) == flip(cmp_lex(a, b)),
    decreases a.len() + b.len(),
{
    if a.len() > 0 && b.len() > 0 && (a[0] as int) == (b[0] as int) {
        lemma_cmp_lex_flip(a.skip(1), b.skip(1));
    }
}

proof fn lemma_cmp_lex_refl(a: Seq<char>)
    ensures
        cmp_lex(a, a) == VersionOrder::Equal,
    decreases a.len(),
{
    if a.len() > 0 {
        lemma_cmp_lex_refl(a.skip(1));
    }
}

proof fn lemma_cmp_lex_equal_is_eq(a: Seq<char>, b: Seq<char>)
    requires
        cmp_lex(a, b) == VersionOrder::Equal,
    ensures
        a == b,
    decreases a.len(),
{
    if a.len() == 0 && b.len() == 0 {
        assert(a =~= b);
    } else {
        lemma_cmp_lex_equal_is_eq(a.skip(1), b.skip(1));
        assert(a =~= b) by {
            assert(forall|i: int|
                1 <= i < a.len() ==> #[trigger] a[i] == a.skip(1)[i - 1] && b[i] == b.skip(1)[i
                    - 1]);
        }
    }
}

proof fn lemma_cmp_lex_trans(a: Seq<char>, b: Seq<char>, c: Seq<char>)
    requires
        cmp_lex(a, b) == VersionOrder::Less,
        cmp_lex(b, c) == VersionOrder::Less,
    ensures
        cmp_lex(a, c) == VersionOrder::Less,
    decreases a.len() + b.len() + c.len(),
{
    if a.len() > 0 && b.len() > 0 && c.len() > 0 && (a[0] as int) == (b[0] as int) && (b[0] as int)
        == (c[0] as int) {
        lemma_cmp_lex_trans(a.skip(1), b.skip(1), c.skip(1));
    }
}

proof fn lemma_cmp_id_flip(a: Seq<char>, b: Seq<char>)
    ensures
        cmp_id(b, a) == flip(cmp_id(a, b)),
{
    if !is_numeric_id(a) && !is_numeric_id(b) {
        lemma_cmp_lex_flip(a, b);
    }
}

proof fn lemma_cmp_id_refl(a: Seq<char>)
    ensures
        cmp_id(a, a) == VersionOrder::Equal,
{
    if !is_numeric_id(a) {
        lemma_cmp_lex_refl(a);
    }
}

proof fn lemma_cmp_id_trans(a: Seq<char>, b: Seq<char>, c: Seq<char>)
    requires
        cmp_id(a, b) == VersionOrder::Less,
        cmp_id(b, c) == VersionOrder::Less,
    ensures
        cmp_id(a, c) == VersionOrder::Less,
{
    if !is_numeric_id(a) && !is_numeric_id(b) && !is_numeric_id(c) {
        lemma_cmp_lex_trans(a, b, c);
    }
}

proof fn lemma_cmp_id_eq_left(a: Seq<char>, b: Seq<char>, c: Seq<char>)
    requires
        cmp_id(a, b) == VersionOrder::Equal,
    ensures
        cmp_id(a, c) == cmp_id(b, c),
{
    if !is_numeric_id(a) && !is_numeric_id(b) {
        lemma_cmp_lex_equal_is_eq(a, b);
    }
}

proof fn lemma_cmp_id_eq_right(a: Seq<char>, b: Seq<char>, c: Seq<char>)
    requires
        cmp_id(b, c) == VersionOrder::Equal,
    ensures
        cmp_id(a, c) == cmp_id(a, b),
{
    if !is_numeric_id(b) && !is_numeric_id(c) {
        lemma_cmp_lex_equal_is_eq(b, c);
    }
}

proof fn lemma_cmp_ids_flip(a: Seq<Seq<char>>, b: Seq<Seq<char>>)
    ensures
        cmp_ids(b, a) == flip(cmp_ids(a, b)),
    decreases a.len() + b.len(),
{
    if a.len() > 0 && b.len() > 0 {
        lemma_cmp_id_flip(a[0], b[0]);
        if cmp_id(a[0], b[0]) == VersionOrder::Equal {
            lemma_cmp_ids_flip(a.skip(1), b.skip(1));
        }
    }
}

proof fn lemma_cmp_ids_refl(a: Seq<Seq<char>>)
    ensures
        cmp_ids(a, a) == VersionOrder::Equal,
    decreases a.len(),
{
    if a.len() > 0 {
        lemma_cmp_id_refl(a[0]);
        lemma_cmp_ids_refl(a.skip(1));
    }
}

proof fn lemma_cmp_ids_trans(a: Seq<Seq<char>>, b: Seq<Seq<char>>, c: Seq<Seq<char>>)
    requires
        cmp_ids(a, b) == VersionOrder::Less,
        cmp_ids(b, c) == VersionOrder::Less,
    ensures
        cmp_ids(a, c) == VersionOrder::Less,
    decreases a.len() + b.len() + c.len(),
{
    if a.len() > 0 && b.len() > 0 && c.len() > 0 {
        let o_ab = cmp_id(a[0], b[0]);
        let o_bc = cmp_id(b[0], c[0]);
        match o_ab {
            VersionOrder::Less => match o_bc {
                VersionOrder::Less => {
                    lemma_cmp_id_trans(a[0], b[0], c[0]);
                },
                VersionOrder::Equal => {
                    lemma_cmp_id_eq_right(a[0], b[0], c[0]);
                },
                VersionOrder::Greater => {},
            },
            VersionOrder::Equal => match o_bc {
                VersionOrder::Less => {
                    lemma_cmp_id_eq_left(a[0], b[0], c[0]);
                },
                VersionOrder::Equal => {
                    lemma_cmp_id_eq_left(a[0], b[0], c[0]);
                    lemma_cmp_ids_trans(a.skip(1), b.skip(1), c.skip(1));
                },
                VersionOrder::Greater => {},
            },
            VersionOrder::Greater => {},
        }
    }
}

/// A version never precedes nor follows itself: two canonical versions with
/// equal parts always compare `Equal`. In particular two raw strings that
/// normalize to the same canonical version compare `Equal`.
pub proof fn lemma_compare_reflexive(a: SpecVersion)
    ensures
        spec_compare(a, a) == VersionOrder::Equal,
{
    match a.prerelease {
        Option::Some(x) => lemma_cmp_ids_refl(x),
        Option::None => {},
    }
}

/// Antisymmetry of the order: read in the other direction, a comparison
/// gives the opposite outcome, and `Equal` stays `Equal`.
pub proof fn lemma_compare_antisymmetric(a: SpecVersion, b: SpecVersion)
    ensures
        spec_compare(b, a) == flip(spec_compare(a, b)),
{
    if a.major == b.major && a.minor == b.minor && a.patch == b.patch {
        match (a.prerelease, b.prerelease) {
            (Option::Some(x), Option::Some(y)) => lemma_cmp_ids_flip(x, y),
            _ => {},
        }
    }
}

/// Transitivity of strict precedence.
pub proof fn lemma_compare_transitive(a: SpecVersion, b: SpecVersion, c: SpecVersion)
    requires
        spec_compare(a, b) == VersionOrder::Less,
        spec_compare(b, c) == VersionOrder::Less,
    ensures
        spec_compare(a, c) == VersionOrder::Less,
{
    if a.major == c.major && a.minor == c.minor && a.patch == c.patch {
        match (a.prerelease, b.prerelease, c.prerelease) {
            (Option::Some(x), Option::Some(y), Option::Some(z)) => lemma_cmp_ids_trans(x, y, z),
            _ => {},
        }
    }
}

/// Normalization is consistent with comparison: two raw strings that
/// normalize to the same canonical version always compare `Equal`.
pub proof fn lemma_normalize_consistent(s: Seq<char>, t: Seq<char>, v: SpecVersion, w: SpecVersion)
    requires
        crate::version::spec_normalize(s) == Option::Some(v),
        crate::version::spec_normalize(t) == Option::Some(w),
        v == w,
    ensures
        spec_compare(v, w) == VersionOrder::Equal,
{
    lemma_compare_reflexive(v);
}

/// The order agrees with numeric comparison on `major`, `minor` and `patch`,
/// taken in that significance.
pub proof fn lemma_compare_numeric_parts(a: SpecVersion, b: SpecVersion)
    ensures
        a.major < b.major ==> spec_compare(a, b) == VersionOrder::Less,
        a.major == b.major && a.minor < b.minor ==> spec_compare(a, b) == VersionOrder::Less,
        a.major == b.major && a.minor == b.minor && a.patch < b.patch ==> spec_compare(a, b)
            == VersionOrder::Less,
{
}

/// A version carrying a pre-release label precedes the release with the same
/// numeric parts.
pub proof fn lemma_prerelease_precedes(a: SpecVersion, b: SpecVersion)
    requires
        a.major == b.major,
        a.minor == b.minor,
        a.patch == b.patch,
        a.prerelease is Some,
        b.prerelease is None,
    ensures
        spec_compare(a, b) == VersionOrder::Less,
{
}

proof fn lemma_pow10_pos(n: nat)
    ensures
        pow10(n) >= 1,
    decreases n,
{
    if n > 0 {
        lemma_pow10_pos((n - 1) as nat);
    }
}

proof fn lemma_pow10_mono(m: nat, n: nat)
    requires
        m <= n,
    ensures
        pow10(m) <= pow10(n),
    decreases n,
{
    if m < n {
        lemma_pow10_mono(m, (n - 1) as nat);
        lemma_pow10_pos((n - 1) as nat);
    }
}

proof fn lemma_skip_zeros(s: Seq<char>, k: int)
    requires
        0 <= k <= s.len(),
        forall|j: int| 0 <= j < k ==> s[j] == '0',
    ensures
        num_val(s) == num_val(s.skip(k)),
    decreases k,
{
    if k == 0 {
        assert(s.skip(0) =~= s);
    } else {
        assert(digit_val(s[0]) == 0);
        lemma_skip_zeros(s.skip(1), k - 1);
        assert(s.skip(1).skip(k - 1) =~= s.skip(k));
    }
}

proof fn lemma_num_val_bound(s: Seq<char>)
    requires
        forall|j: int| 0 <= j < s.len() ==> is_digit(#[trigger] s[j]),
    ensures
        0 <= num_val(s) < pow10(s.len()),
    decreases s.len(),
{
    if s.len() > 0 {
        lemma_num_val_bound(s.skip(1));
        let p = pow10((s.len() - 1) as nat);
        let dv = digit_val(s[0]);
        lemma_pow10_pos((s.len() - 1) as nat);
        assert(0 <= dv <= 9);
        assert(dv * p <= 9 * p && dv * p >= 0) by (nonlinear_arith)
            requires
                0 <= dv <= 9,
                p >= 1,
        ;
    }
}

proof fn lemma_num_val_lower(s: Seq<char>)
    requires
        forall|j: int| 0 <= j < s.len() ==> is_digit(#[trigger] s[j]),
        s.len() > 0,
        s[0] != '0',
    ensures
        num_val(s) >= pow10((s.len() - 1) as nat),
{
    let p = pow10((s.len() - 1) as nat);
    let dv = digit_val(s[0]);
    assert(dv >= 1);
    lemma_pow10_pos((s.len() - 1) as nat);
    assert(dv * p >= p) by (nonlinear_arith)
        requires
            dv >= 1,
            p >= 1,
    ;
    lemma_num_val_bound(s.skip(1));
}

proof fn lemma_val_shorter(x: Seq<char>, y: Seq<char>)
    requires
        forall|j: int| 0 <= j < x.len() ==> is_digit(#[trigger] x[j]),
        forall|j: int| 0 <= j < y.len() ==> is_digit(#[trigger] y[j]),
        x.len() < y.len(),
        y.len() > 0 ==> y[0] != '0',
    ensures
        num_val(x) < num_val(y),
{
    lemma_num_val_bound(x);
    lemma_num_val_lower(y);
    lemma_pow10_mono(x.len(), (y.len() - 1) as nat);
}

proof fn lemma_lex_same_len_val(a: Seq<char>, b: Seq<char>)
    requires
        forall|j: int| 0 <= j < a.len() ==> is_digit(#[trigger] a[j]),
        forall|j: int| 0 <= j < b.len() ==> is_digit(#[trigger] b[j]),
        a.len() == b.len(),
    ensures
        cmp_lex(a, b) == cmp_int(num_val(a), num_val(b)),
    decreases a.len(),
{
    if a.len() > 0 {
        let p = pow10((a.len() - 1) as nat);
        let da = digit_val(a[0]);
        let db = digit_val(b[0]);
        lemma_num_val_bound(a.skip(1));
        lemma_num_val_bound(b.skip(1));
        lemma_pow10_pos((a.len() - 1) as nat);
        if (a[0] as int) == (b[0] as int) {
            lemma_lex_same_len_val(a.skip(1), b.skip(1));
        } else if (a[0] as int) < (b[0] as int) {
            assert((da + 1) * p <= db * p) by (nonlinear_arith)
                requires
                    da + 1 <= db,
                    p >= 1,
            ;
            assert(da * p + p == (da + 1) * p) by (nonlinear_arith);
        } else {
            assert((db + 1) * p <= da * p) by (nonlinear_arith)
                requires
                    db + 1 <= da,
                    p >= 1,
            ;
            assert(db * p + p == (db + 1) * p) by (nonlinear_arith);
        }
    }
}

} // verus!
