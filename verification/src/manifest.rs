//! Bare versions: the minimal `major.minor` or `major.minor.patch` version
//! values declared in project manifests, their parser, and the manifest
//! reader that extracts them.

use vstd::prelude::*;
use vstd::arithmetic::div_mod::lemma_fundamental_div_mod;
use vstd::string::StrSliceExecFns;
use vstd::string::StringExecFns;
use crate::errors::CargoMSRVError;
use crate::version::Version;

verus! {

/// A version declared in a manifest: only two or three numeric components,
/// not yet resolved against any concrete release.
#[derive(Clone, Copy, Debug, PartialEq, Eq, Structural)]
pub enum BareVersion {
    TwoComponents(u64, u64),
    ThreeComponents(u64, u64, u64),
}

// ---------------------------------------------------------------------------
// Specification of bare-version strings.
//
// A bare version string is a sequence of dot-separated components, each a
// u64 numeral, exactly two or three of them. The final component — second
// or third — is stripped of a pre-release suffix (everything from the
// first `-` on) before numeric parsing; earlier components are not. A
// fourth component is rejected.
// ---------------------------------------------------------------------------

pub open spec fn is_ascii_digit(c: char) -> bool {
    48 <= c as int && c as int <= 57
}

pub open spec fn digit_value(c: char) -> int {
    c as int - 48
}

pub open spec fn all_digits(s: Seq<char>) -> bool {
    forall|i: int| 0 <= i < s.len() ==> is_ascii_digit(#[trigger] s[i])
}

/// The value of a digit string read in base 10.
pub open spec fn dec_value(s: Seq<char>) -> int
    decreases s.len(),
{
    if s.len() == 0 {
        0
    } else {
        dec_value(s.drop_last()) * 10 + digit_value(s.last())
    }
}

/// A token that parses as a u64: non-empty, all digits, in range.
pub open spec fn is_numeral(s: Seq<char>) -> bool {
    s.len() > 0 && all_digits(s) && dec_value(s) <= u64::MAX
}

/// The first dot-separated component of `s`.
pub open spec fn head_component(s: Seq<char>) -> Seq<char> {
    match s.index_of_first('.') {
        Some(i) => s.take(i),
        None => s,
    }
}

/// Everything after the first dot of `s`, or `None` if `s` has no dot.
pub open spec fn rest_components(s: Seq<char>) -> Option<Seq<char>> {
    match s.index_of_first('.') {
        Some(i) => Some(s.skip(i + 1)),
        None => None,
    }
}

/// A component with its pre-release suffix removed: everything from the
/// first `-` on is dropped.
pub open spec fn strip_pre_release(s: Seq<char>) -> Seq<char> {
    match s.index_of_first('-') {
        Some(i) => s.take(i),
        None => s,
    }
}

/// `s` is a well-formed two-component bare version string, allowing a
/// pre-release suffix on the second — here final — component.
pub open spec fn parses_to_two(s: Seq<char>) -> bool {
    match rest_components(s) {
        Some(r1) => rest_components(r1) is None && is_numeral(head_component(s)) && is_numeral(
            strip_pre_release(r1),
        ),
        None => false,
    }
}

/// `s` is a well-formed three-component bare version string, allowing a
/// pre-release suffix on the third component.
pub open spec fn parses_to_three(s: Seq<char>) -> bool {
    match rest_components(s) {
        Some(r1) => match rest_components(r1) {
            Some(r2) => rest_components(r2) is None && is_numeral(head_component(s)) && is_numeral(
                head_component(r1)) && is_numeral(strip_pre_release(r2)),
            None => false,
        },
        None => false,
    }
}

pub open spec fn bare_version_parses(s: Seq<char>) -> bool {
    parses_to_two(s) || parses_to_three(s)
}

/// The bare version a well-formed string parses to.
pub open spec fn parsed_bare_version(s: Seq<char>) -> BareVersion {
    match rest_components(s) {
        Some(r1) => match rest_components(r1) {
            None => BareVersion::TwoComponents(
                dec_value(head_component(s)) as u64,
                dec_value(strip_pre_release(r1)) as u64,
            ),
            Some(r2) => BareVersion::ThreeComponents(
                dec_value(head_component(s)) as u64,
                dec_value(head_component(r1)) as u64,
                dec_value(strip_pre_release(r2)) as u64,
            ),
        },
        None => arbitrary(),
    }
}

/// The string is a lone numeral: the second component is missing.
pub open spec fn missing_second_component(s: Seq<char>) -> bool {
    rest_components(s) is None && is_numeral(s)
}

/// The first three components parse, but a fourth component follows.
pub open spec fn trailing_components(s: Seq<char>) -> bool {
    match rest_components(s) {
        Some(r1) => match rest_components(r1) {
            Some(r2) => rest_components(r2) is Some && is_numeral(head_component(s)) && is_numeral(
                head_component(r1)) && is_numeral(strip_pre_release(head_component(r2))),
            None => false,
        },
        None => false,
    }
}

/// The component after the third dot, reported when trailing components are
/// rejected.
pub open spec fn trailing_peek(s: Seq<char>) -> Seq<char> {
    match rest_components(s) {
        Some(r1) => match rest_components(r1) {
            Some(r2) => match rest_components(r2) {
                Some(r3) => head_component(r3),
                None => arbitrary(),
            },
            None => arbitrary(),
        },
        None => arbitrary(),
    }
}

/// The first component (after pre-release stripping, for the final one)
/// that is not a u64 numeral.
pub open spec fn offending_token(s: Seq<char>) -> Seq<char> {
    if !is_numeral(head_component(s)) {
        head_component(s)
    } else {
        match rest_components(s) {
            Some(r1) => match rest_components(r1) {
                None => strip_pre_release(r1),
                Some(r2) => if !is_numeral(head_component(r1)) {
                    head_component(r1)
                } else {
                    strip_pre_release(head_component(r2))
                },
            },
            None => arbitrary(),
        }
    }
}

/// The error `parse_bare_version` owes for a malformed string: the
/// structural complaints carry the whole input and a message, a bad
/// component carries the offending token.
pub open spec fn parse_error_for(e: CargoMSRVError, s: Seq<char>) -> bool {
    if missing_second_component(s) {
        e matches CargoMSRVError::UnableToParseBareVersion { version, message } && version@ == s
            && message@ == "Couldn't find second component"@
    } else if trailing_components(s) {
        e matches CargoMSRVError::UnableToParseBareVersion { version, message } && version@ == s
            && message@ == "Unexpected tokens at the end of version number: '"@ + trailing_peek(s)
            + "'"@
    } else {
        e matches CargoMSRVError::UnableToParseBareVersionNumber(t) && t@ == offending_token(s)
    }
}

// ---------------------------------------------------------------------------
// Lemmas about digit strings.
// ---------------------------------------------------------------------------

proof fn lemma_dec_value_nonneg(s: Seq<char>)
    requires
        all_digits(s),
    ensures
        dec_value(s) >= 0,
    decreases s.len(),
{
    if s.len() > 0 {
        assert(forall|i: int| 0 <= i < s.drop_last().len() ==> is_ascii_digit(
            #[trigger] s.drop_last()[i],
        ));
        lemma_dec_value_nonneg(s.drop_last());
    }
}

/// Prefixes of a digit string never exceed the whole string's value.
proof fn lemma_dec_value_prefix_le(s: Seq<char>, j: int)
    requires
        all_digits(s),
        0 <= j <= s.len(),
    ensures
        dec_value(s.take(j)) <= dec_value(s),
    decreases s.len() - j,
{
    if j == s.len() {
        assert(s.take(j) =~= s);
    } else {
        assert(s.take(j + 1).drop_last() =~= s.take(j));
        assert(s.take(j + 1).last() == s[j]);
        assert(forall|i: int| 0 <= i < s.take(j).len() ==> is_ascii_digit(
            #[trigger] s.take(j)[i],
        ));
        lemma_dec_value_nonneg(s.take(j));
        assert(dec_value(s.take(j + 1)) == dec_value(s.take(j)) * 10 + digit_value(s[j]));
        lemma_dec_value_prefix_le(s, j + 1);
    }
}

/// Transfers the result of a left-to-right scan for `c` over `s[from..to]`
/// to `index_of_first` on that subrange.
proof fn lemma_scan_index_of_first(s: Seq<char>, c: char, from: int, to: int, r: int)
    requires
        0 <= from <= r <= to <= s.len(),
        forall|i: int| from <= i < r ==> s[i] != c,
        r < to ==> s[r] == c,
    ensures
        s.subrange(from, to).index_of_first(c) == (if r < to {
            Some(r - from)
        } else {
            None::<int>
        }),
{
    let t = s.subrange(from, to);
    t.index_of_first_ensures(c);
    match t.index_of_first(c) {
        Some(idx) => {
            assert(t[idx] == s[from + idx]);
            if r == to {
                assert(s[from + idx] != c);
                assert(false);
            } else {
                if idx < r - from {
                    assert(s[from + idx] != c);
                    assert(false);
                }
                if idx > r - from {
                    assert(t[r - from] != c);
                    assert(t[r - from] == s[r]);
                    assert(false);
                }
            }
        },
        None => {
            if r < to {
                assert(t[r - from] == s[r]);
                assert(t.contains(t[r - from]));
                assert(false);
            }
        },
    }
}

// ---------------------------------------------------------------------------
// Executable parsing.
// ---------------------------------------------------------------------------

/// First position of `c` in `s[from..to]`, or `to` if absent.
fn find_in_range(s: &str, from: usize, to: usize, c: char) -> (r: usize)
    requires
        from <= to,
        to <= s@.len(),
    ensures
        from <= r <= to,
        forall|i: int| from <= i < r ==> s@[i] != c,
        r < to ==> s@[r as int] == c,
{
    let mut i = from;
    while i < to
        invariant
            from <= i <= to,
            to <= s@.len(),
            forall|k: int| from <= k < i ==> s@[k] != c,
        decreases to - i,
    {
        if s.get_char(i) == c {
            return i;
        }
        i = i + 1;
    }
    i
}

/// Parses `s[from..to]` as a u64 numeral, or reports that it is not one.
fn parse_component(s: &str, from: usize, to: usize) -> (r: Option<u64>)
    requires
        from <= to,
        to <= s@.len(),
    ensures
        r is Some <==> is_numeral(s@.subrange(from as int, to as int)),
        r matches Some(v) ==> v == dec_value(s@.subrange(from as int, to as int)),
{
    let ghost whole = s@.subrange(from as int, to as int);
    if from == to {
        return None;
    }
    let mut acc: u64 = 0;
    let mut i = from;
    while i < to
        invariant
            from <= i <= to,
            to <= s@.len(),
            whole == s@.subrange(from as int, to as int),
            all_digits(s@.subrange(from as int, i as int)),
            acc == dec_value(s@.subrange(from as int, i as int)),
        decreases to - i,
    {
        let ghost pre = s@.subrange(from as int, i as int);
        let c = s.get_char(i);
        let u = c as u32;
        if u < 48 || u > 57 {
            proof {
                assert(whole[i - from] == s@[i as int]);
                assert(!is_ascii_digit(whole[i - from]));
            }
            return None;
        }
        let d = (u - 48) as u64;
        proof {
            assert(d == digit_value(c));
            assert(s@.subrange(from as int, i as int + 1).drop_last() =~= pre);
            assert(s@.subrange(from as int, i as int + 1).last() == c);
            assert(dec_value(s@.subrange(from as int, i as int + 1)) == acc * 10 + d);
        }
        if acc > (u64::MAX - d) / 10 {
            proof {
                lemma_fundamental_div_mod(u64::MAX - d, 10);
                assert(acc * 10 + d > u64::MAX);
                if all_digits(whole) {
                    assert(whole.take(i - from + 1) =~= s@.subrange(from as int, i as int + 1));
                    lemma_dec_value_prefix_le(whole, i - from + 1);
                    assert(dec_value(whole) > u64::MAX);
                } else {
                    assert(!is_numeral(whole));
                }
            }
            return None;
        }
        proof {
            lemma_fundamental_div_mod(u64::MAX - d, 10);
            assert(acc * 10 + d <= u64::MAX);
            assert(forall|k: int| 0 <= k < s@.subrange(from as int, i as int + 1).len()
                ==> is_ascii_digit(#[trigger] s@.subrange(from as int, i as int + 1)[k]));
        }
        acc = acc * 10 + d;
        i = i + 1;
    }
    proof {
        assert(whole =~= s@.subrange(from as int, i as int));
    }
    Some(acc)
}

/// Parses a dot-separated bare version string.
///
/// Exactly two or three numeric components are accepted; a pre-release
/// suffix on the final component is stripped before numeric parsing. A
/// missing component, a non-numeral token, an out-of-range component, or a
/// fourth component is rejected, naming the offending token.
#[verifier::rlimit(60)]
pub fn parse_bare_version(value: &str) -> (r: Result<BareVersion, CargoMSRVError>)
    ensures
        r is Ok <==> bare_version_parses(value@),
        r matches Ok(b) ==> b == parsed_bare_version(value@),
        r matches Err(e) ==> parse_error_for(e, value@),
{
    let ghost s = value@;
    let n = value.unicode_len();
    let d1 = find_in_range(value, 0, n, '.');
    proof {
        lemma_scan_index_of_first(s, '.', 0, n as int, d1 as int);
        assert(s.subrange(0, n as int) =~= s);
    }
    if d1 == n {
        // A single component: accepted numerals still lack a second
        // component; anything else is a number error on the whole string.
        match parse_component(value, 0, n) {
            Some(_) => Err(
                CargoMSRVError::UnableToParseBareVersion {
                    version: value.to_owned(),
                    message: "Couldn't find second component".to_owned(),
                },
            ),
            None => Err(CargoMSRVError::UnableToParseBareVersionNumber(value.to_owned())),
        }
    } else {
        let ghost r1 = s.skip(d1 + 1);
        match parse_component(value, 0, d1) {
            None => Err(
                CargoMSRVError::UnableToParseBareVersionNumber(
                    value.substring_char(0, d1).to_owned(),
                ),
            ),
            Some(major) => {
                let d2 = find_in_range(value, d1 + 1, n, '.');
                proof {
                    lemma_scan_index_of_first(s, '.', d1 as int + 1, n as int, d2 as int);
                    assert(r1 == s.subrange(d1 as int + 1, n as int));
                }
                if d2 == n {
                    // Two components; the second is final, so a pre-release
                    // suffix is stripped from it first.
                    let dash2 = find_in_range(value, d1 + 1, n, '-');
                    proof {
                        assert(rest_components(r1) is None);
                        assert(r1 =~= s.subrange(d1 as int + 1, n as int));
                        lemma_scan_index_of_first(s, '-', d1 as int + 1, n as int, dash2 as int);
                        assert(strip_pre_release(r1) =~= s.subrange(d1 as int + 1, dash2 as int));
                    }
                    match parse_component(value, d1 + 1, dash2) {
                        None => Err(
                            CargoMSRVError::UnableToParseBareVersionNumber(
                                value.substring_char(d1 + 1, dash2).to_owned(),
                            ),
                        ),
                        Some(minor) => Ok(BareVersion::TwoComponents(major, minor)),
                    }
                } else {
                    let ghost r2 = s.skip(d2 + 1);
                    proof {
                        assert(rest_components(r1) == Some(r1.skip(d2 - d1)));
                        assert(r1.skip(d2 - d1) =~= r2);
                        assert(head_component(r1) =~= s.subrange(d1 as int + 1, d2 as int));
                    }
                    match parse_component(value, d1 + 1, d2) {
                        None => Err(
                            CargoMSRVError::UnableToParseBareVersionNumber(
                                value.substring_char(d1 + 1, d2).to_owned(),
                            ),
                        ),
                        Some(minor) => {
                            let d3 = find_in_range(value, d2 + 1, n, '.');
                            proof {
                                lemma_scan_index_of_first(s, '.', d2 as int + 1, n as int,
                                    d3 as int);
                                assert(r2 == s.subrange(d2 as int + 1, n as int));
                                if d3 < n {
                                    assert(head_component(r2) =~= s.subrange(d2 as int + 1,
                                        d3 as int));
                                } else {
                                    assert(head_component(r2) =~= s.subrange(d2 as int + 1,
                                        d3 as int));
                                }
                            }
                            let dash = find_in_range(value, d2 + 1, d3, '-');
                            proof {
                                lemma_scan_index_of_first(s, '-', d2 as int + 1, d3 as int,
                                    dash as int);
                                assert(strip_pre_release(head_component(r2)) =~= s.subrange(
                                    d2 as int + 1, dash as int));
                            }
                            match parse_component(value, d2 + 1, dash) {
                                None => Err(
                                    CargoMSRVError::UnableToParseBareVersionNumber(
                                        value.substring_char(d2 + 1, dash).to_owned(),
                                    ),
                                ),
                                Some(patch) => {
                                    if d3 == n {
                                        proof {
                                            assert(rest_components(r2) is None);
                                            assert(head_component(r2) =~= r2);
                                            assert(strip_pre_release(r2) =~= s.subrange(
                                                d2 as int + 1, dash as int));
                                        }
                                        Ok(BareVersion::ThreeComponents(major, minor, patch))
                                    } else {
                                        let ghost r3 = s.skip(d3 + 1);
                                        proof {
                                            assert(rest_components(r2) == Some(
                                                r2.skip(d3 - d2)));
                                            assert(r2.skip(d3 - d2) =~= r3);
                                        }
                                        let d4 = find_in_range(value, d3 + 1, n, '.');
                                        proof {
                                            lemma_scan_index_of_first(s, '.', d3 as int + 1,
                                                n as int, d4 as int);
                                            assert(r3 == s.subrange(d3 as int + 1, n as int));
                                            assert(head_component(r3) =~= s.subrange(
                                                d3 as int + 1, d4 as int));
                                        }
                                        let peek = value.substring_char(d3 + 1, d4);
                                        let mut message = String::from_str(
                                            "Unexpected tokens at the end of version number: '",
                                        );
                                        message.append(peek);
                                        message.append("'");
                                        Err(
                                            CargoMSRVError::UnableToParseBareVersion {
                                                version: value.to_owned(),
                                                message,
                                            },
                                        )
                                    }
                                },
                            }
                        },
                    }
                }
            },
        }
    }
}

// ---------------------------------------------------------------------------
// The parse/render round trip.
// ---------------------------------------------------------------------------

pub open spec fn digit_char(d: int) -> char {
    (48 + d) as char
}

/// The canonical decimal digits of `v`, most significant first.
pub open spec fn spec_digits(v: nat) -> Seq<char>
    decreases v,
{
    if v < 10 {
        seq![digit_char(v as int)]
    } else {
        spec_digits(v / 10).push(digit_char((v % 10) as int))
    }
}

/// The canonical rendering of a bare version: decimal components joined by
/// dots.
pub open spec fn spec_render(b: BareVersion) -> Seq<char> {
    match b {
        BareVersion::TwoComponents(major, minor) => spec_digits(major as nat) + seq!['.']
            + spec_digits(minor as nat),
        BareVersion::ThreeComponents(major, minor, patch) => spec_digits(major as nat) + seq!['.']
            + spec_digits(minor as nat) + seq!['.'] + spec_digits(patch as nat),
    }
}

proof fn lemma_spec_digits(v: nat)
    requires
        v <= u64::MAX,
    ensures
        is_numeral(spec_digits(v)),
        dec_value(spec_digits(v)) == v,
        forall|i: int|
            0 <= i < spec_digits(v).len() ==> (#[trigger] spec_digits(v)[i]) != '.'
                && spec_digits(v)[i] != '-',
    decreases v,
{
    let s = spec_digits(v);
    if v < 10 {
        assert(s =~= seq![digit_char(v as int)]);
        assert(s.drop_last() =~= Seq::<char>::empty());
        assert(s.last() == digit_char(v as int));
        assert(is_ascii_digit(digit_char(v as int)));
        assert(dec_value(Seq::<char>::empty()) == 0);
        assert(dec_value(s.drop_last()) == 0);
        assert(dec_value(s) == digit_value(digit_char(v as int)));
    } else {
        lemma_spec_digits(v / 10);
        let pre = spec_digits(v / 10);
        let c = digit_char((v % 10) as int);
        assert(s == pre.push(c));
        assert(s.drop_last() =~= pre);
        assert(s.last() == c);
        assert(is_ascii_digit(c));
        assert(dec_value(s) == dec_value(pre) * 10 + digit_value(c));
        assert(dec_value(s) == (v / 10) * 10 + (v % 10));
        lemma_fundamental_div_mod(v as int, 10);
    }
}

/// Parsing round-trips rendering: the canonical string of every bare
/// version parses back to exactly that version.
#[verifier::rlimit(100)]
pub proof fn lemma_parse_render_round_trip(b: BareVersion)
    ensures
        bare_version_parses(spec_render(b)),
        parsed_bare_version(spec_render(b)) == b,
{
    match b {
        BareVersion::TwoComponents(major, minor) => {
            let d1 = spec_digits(major as nat);
            let d2 = spec_digits(minor as nat);
            lemma_spec_digits(major as nat);
            lemma_spec_digits(minor as nat);
            let s = spec_render(b);
            let p = d1.len() as int;
            assert(s.len() == d1.len() + 1 + d2.len());
            assert(forall|i: int| 0 <= i < p ==> s[i] == d1[i]);
            assert(s[p] == '.');
            assert(forall|i: int| p + 1 <= i < s.len() ==> s[i] == d2[i - p - 1]);
            lemma_scan_index_of_first(s, '.', 0, s.len() as int, p);
            assert(s.subrange(0, s.len() as int) =~= s);
            assert(s.index_of_first('.') == Some(p));
            assert(head_component(s) =~= d1);
            let r1 = s.skip(p + 1);
            assert(rest_components(s) == Some(r1));
            assert(r1 =~= d2);
            lemma_scan_index_of_first(r1, '.', 0, r1.len() as int, r1.len() as int);
            assert(r1.subrange(0, r1.len() as int) =~= r1);
            assert(r1.index_of_first('.') is None);
            assert(rest_components(r1) is None);
            lemma_scan_index_of_first(r1, '-', 0, r1.len() as int, r1.len() as int);
            assert(r1.index_of_first('-') is None);
            assert(strip_pre_release(r1) =~= d2);
            assert(parses_to_two(s));
        },
        BareVersion::ThreeComponents(major, minor, patch) => {
            let d1 = spec_digits(major as nat);
            let d2 = spec_digits(minor as nat);
            let d3 = spec_digits(patch as nat);
            lemma_spec_digits(major as nat);
            lemma_spec_digits(minor as nat);
            lemma_spec_digits(patch as nat);
            let s = spec_render(b);
            let p = d1.len() as int;
            let q = d1.len() + 1 + d2.len();
            assert(s.len() == d1.len() + 1 + d2.len() + 1 + d3.len());
            assert(forall|i: int| 0 <= i < p ==> s[i] == d1[i]);
            assert(s[p] == '.');
            assert(forall|i: int| p + 1 <= i < q ==> s[i] == d2[i - p - 1]);
            assert(s[q as int] == '.');
            assert(forall|i: int| q + 1 <= i < s.len() ==> s[i] == d3[i - q - 1]);
            lemma_scan_index_of_first(s, '.', 0, s.len() as int, p);
            assert(s.subrange(0, s.len() as int) =~= s);
            assert(s.index_of_first('.') == Some(p));
            assert(head_component(s) =~= d1);
            let r1 = s.skip(p + 1);
            assert(rest_components(s) == Some(r1));
            lemma_scan_index_of_first(s, '.', p + 1, s.len() as int, q as int);
            assert(s.subrange(p + 1, s.len() as int) =~= r1);
            assert(r1.index_of_first('.') == Some(q - p - 1));
            assert(head_component(r1) =~= d2);
            let r2 = r1.skip(q - p);
            assert(rest_components(r1) == Some(r2));
            assert(r2 =~= d3);
            lemma_scan_index_of_first(r2, '.', 0, r2.len() as int, r2.len() as int);
            assert(r2.subrange(0, r2.len() as int) =~= r2);
            assert(rest_components(r2) is None);
            lemma_scan_index_of_first(r2, '-', 0, r2.len() as int, r2.len() as int);
            assert(r2.index_of_first('-') is None);
            assert(strip_pre_release(r2) =~= d3);
            assert(parses_to_three(s));
        },
    }
}

/// A pre-release suffix is stripped: appending to a rendering any suffix
/// that opens with `-` and contains no dot parses back to the same version.
#[verifier::rlimit(100)]
pub proof fn lemma_parse_render_with_pre_release(b: BareVersion, suffix: Seq<char>)
    requires
        suffix.len() > 0,
        suffix[0] == '-',
        forall|i: int| 0 <= i < suffix.len() ==> suffix[i] != '.',
    ensures
        bare_version_parses(spec_render(b) + suffix),
        parsed_bare_version(spec_render(b) + suffix) == b,
{
    match b {
        BareVersion::TwoComponents(major, minor) => {
            let d1 = spec_digits(major as nat);
            let d2 = spec_digits(minor as nat);
            lemma_spec_digits(major as nat);
            lemma_spec_digits(minor as nat);
            let s = spec_render(b) + suffix;
            let p = d1.len() as int;
            let t = p + 1 + d2.len() as int;
            assert(s.len() == d1.len() + 1 + d2.len() + suffix.len());
            assert(forall|i: int| 0 <= i < p ==> s[i] == d1[i]);
            assert(s[p] == '.');
            assert(forall|i: int| p + 1 <= i < t ==> s[i] == d2[i - p - 1]);
            assert(forall|i: int| t <= i < s.len() ==> s[i] == suffix[i - t]);
            lemma_scan_index_of_first(s, '.', 0, s.len() as int, p);
            assert(s.subrange(0, s.len() as int) =~= s);
            assert(s.index_of_first('.') == Some(p));
            assert(head_component(s) =~= d1);
            let r1 = s.skip(p + 1);
            assert(rest_components(s) == Some(r1));
            lemma_scan_index_of_first(s, '.', p + 1, s.len() as int, s.len() as int);
            assert(s.subrange(p + 1, s.len() as int) =~= r1);
            assert(r1.index_of_first('.') is None);
            assert(rest_components(r1) is None);
            lemma_scan_index_of_first(s, '-', p + 1, s.len() as int, t);
            assert(r1.index_of_first('-') == Some(t - p - 1));
            assert(strip_pre_release(r1) =~= d2);
            assert(parses_to_two(s));
        },
        BareVersion::ThreeComponents(major, minor, patch) => {
            let d1 = spec_digits(major as nat);
            let d2 = spec_digits(minor as nat);
            let d3 = spec_digits(patch as nat);
            lemma_spec_digits(major as nat);
            lemma_spec_digits(minor as nat);
            lemma_spec_digits(patch as nat);
            let s = spec_render(b) + suffix;
            let p = d1.len() as int;
            let q = p + 1 + d2.len() as int;
            let t = q + 1 + d3.len() as int;
            assert(s.len() == d1.len() + 1 + d2.len() + 1 + d3.len() + suffix.len());
            assert(forall|i: int| 0 <= i < p ==> s[i] == d1[i]);
            assert(s[p] == '.');
            assert(forall|i: int| p + 1 <= i < q ==> s[i] == d2[i - p - 1]);
            assert(s[q] == '.');
            assert(forall|i: int| q + 1 <= i < t ==> s[i] == d3[i - q - 1]);
            assert(forall|i: int| t <= i < s.len() ==> s[i] == suffix[i - t]);
            lemma_scan_index_of_first(s, '.', 0, s.len() as int, p);
            assert(s.subrange(0, s.len() as int) =~= s);
            assert(s.index_of_first('.') == Some(p));
            assert(head_component(s) =~= d1);
            let r1 = s.skip(p + 1);
            assert(rest_components(s) == Some(r1));
            lemma_scan_index_of_first(s, '.', p + 1, s.len() as int, q);
            assert(s.subrange(p + 1, s.len() as int) =~= r1);
            assert(r1.index_of_first('.') == Some(q - p - 1));
            assert(head_component(r1) =~= d2);
            let r2 = r1.skip(q - p);
            assert(rest_components(r1) == Some(r2));
            assert(r2 =~= s.subrange(q + 1, s.len() as int));
            lemma_scan_index_of_first(s, '.', q + 1, s.len() as int, s.len() as int);
            assert(r2.index_of_first('.') is None);
            assert(rest_components(r2) is None);
            lemma_scan_index_of_first(s, '-', q + 1, s.len() as int, t);
            assert(r2.index_of_first('-') == Some(t - q - 1));
            assert(strip_pre_release(r2) =~= d3);
            assert(parses_to_three(s));
        },
    }
}

/// The decimal digits of `d` as a string slice, for a single digit.
fn digit_str(d: u64) -> (r: &'static str)
    requires
        d < 10,
    ensures
        r@ == seq![digit_char(d as int)],
{
    proof {
        reveal_strlit("0");
        reveal_strlit("1");
        reveal_strlit("2");
        reveal_strlit("3");
        reveal_strlit("4");
        reveal_strlit("5");
        reveal_strlit("6");
        reveal_strlit("7");
        reveal_strlit("8");
        reveal_strlit("9");
    }
    match d {
        0 => "0",
        1 => "1",
        2 => "2",
        3 => "3",
        4 => "4",
        5 => "5",
        6 => "6",
        7 => "7",
        8 => "8",
        _ => "9",
    }
}

/// The canonical decimal string of `v`.
fn digits_string(v: u64) -> (r: String)
    ensures
        r@ == spec_digits(v as nat),
    decreases v,
{
    if v < 10 {
        digit_str(v).to_owned()
    } else {
        let mut prefix = digits_string(v / 10);
        prefix.append(digit_str(v % 10));
        proof {
            assert(spec_digits((v / 10) as nat) + seq![digit_char((v % 10) as int)] =~= spec_digits(
                (v / 10) as nat,
            ).push(digit_char((v % 10) as int)));
        }
        prefix
    }
}

impl BareVersion {
    /// The canonical string of this bare version: decimal components joined
    /// by dots.
    pub fn render(&self) -> (r: String)
        ensures
            r@ == spec_render(*self),
    {
        proof {
            reveal_strlit(".");
        }
        match self {
            BareVersion::TwoComponents(major, minor) => {
                let mut out = digits_string(*major);
                out.append(".");
                let minor_digits = digits_string(*minor);
                out.append(minor_digits.as_str());
                proof {
                    assert("."@ =~= seq!['.']);
                    assert(out@ =~= spec_render(*self));
                }
                out
            },
            BareVersion::ThreeComponents(major, minor, patch) => {
                let mut out = digits_string(*major);
                out.append(".");
                let minor_digits = digits_string(*minor);
                out.append(minor_digits.as_str());
                out.append(".");
                let patch_digits = digits_string(*patch);
                out.append(patch_digits.as_str());
                proof {
                    assert("."@ =~= seq!['.']);
                    assert(out@ =~= spec_render(*self));
                }
                out
            },
        }
    }
}

// ---------------------------------------------------------------------------
// Tilde matching against concrete versions.
// ---------------------------------------------------------------------------

/// Tilde-style requirement satisfaction: a bare version accepts a concrete
/// release sharing its major and minor components; a pinned patch accepts
/// that patch or any higher one within the same major.minor line.
pub open spec fn spec_tilde_matches(b: BareVersion, v: Version) -> bool {
    match b {
        BareVersion::TwoComponents(major, minor) => v.major == major && v.minor == minor,
        BareVersion::ThreeComponents(major, minor, patch) => v.major == major && v.minor == minor
            && v.patch >= patch,
    }
}

/// Relies on semver::Comparator::matches with the tilde operator: with an
/// empty pre-release on both sides it accepts exactly the versions that
/// agree on major and minor and, when the comparator pins a patch, have that
/// patch or a higher one.
#[verifier::external_body]
fn semver_tilde_matches(b: &BareVersion, v: &Version) -> (r: bool)
    ensures
        r == spec_tilde_matches(*b, *v),
{
    let (major, minor, patch) = match b {
        BareVersion::TwoComponents(major, minor) => (*major, Some(*minor), None),
        BareVersion::ThreeComponents(major, minor, patch) => (*major, Some(*minor), Some(*patch)),
    };
    let op = semver::Op::Tilde;
    let pre = semver::Prerelease::EMPTY;
    let comparator = semver::Comparator { op, major, minor, patch, pre };
    comparator.matches(&semver::Version::new(v.major, v.minor, v.patch))
}

fn clone_versions(vs: &Vec<Version>) -> (r: Vec<Version>)
    ensures
        r@ == vs@,
{
    let mut out: Vec<Version> = Vec::new();
    let mut i: usize = 0;
    while i < vs.len()
        invariant
            0 <= i <= vs@.len(),
            out@ == vs@.take(i as int),
        decreases vs@.len() - i,
    {
        out.push(vs[i]);
        proof {
            assert(out@ =~= vs@.take(i as int + 1));
        }
        i = i + 1;
    }
    proof {
        assert(out@ =~= vs@);
    }
    out
}

impl BareVersion {
    /// The concrete version this bare version stands for under ordinary
    /// component-wise ordering: an unspecified patch counts as zero.
    pub fn to_version(&self) -> (v: Version)
        ensures
            v == (match *self {
                BareVersion::TwoComponents(major, minor) => Version { major, minor, patch: 0 },
                BareVersion::ThreeComponents(major, minor, patch) => Version {
                    major,
                    minor,
                    patch,
                },
            }),
    {
        match self {
            BareVersion::TwoComponents(major, minor) => Version::new(*major, *minor, 0),
            BareVersion::ThreeComponents(major, minor, patch) => Version::new(
                *major,
                *minor,
                *patch,
            ),
        }
    }

    /// Resolves this bare version against a list of available concrete
    /// versions, returning the first one (in the list's order) that the
    /// tilde requirement accepts, or an error carrying the requirement and
    /// the full list.
    pub fn try_to_semver(&self, available: &Vec<Version>) -> (r: Result<Version, CargoMSRVError>)
        ensures
            r is Ok <==> exists|i: int|
                0 <= i < available@.len() && spec_tilde_matches(*self, available@[i]),
            r matches Ok(v) ==> exists|i: int|
                0 <= i < available@.len() && available@[i] == v && spec_tilde_matches(*self, v)
                    && (forall|j: int| 0 <= j < i ==> !spec_tilde_matches(*self, available@[j])),
            r matches Err(CargoMSRVError::NoVersionMatchesManifestMSRV(req, avail)) ==> req
                == *self && avail@ == available@,
            r is Err ==> r matches Err(CargoMSRVError::NoVersionMatchesManifestMSRV(_, _)),
    {
        let n = available.len();
        let mut idx: usize = 0;
        while idx < n
            invariant
                n == available@.len(),
                0 <= idx <= n,
                forall|j: int| 0 <= j < idx ==> !spec_tilde_matches(*self, available@[j]),
            decreases n - idx,
        {
            if semver_tilde_matches(self, &available[idx]) {
                return Ok(available[idx]);
            }
            idx = idx + 1;
        }
        Err(CargoMSRVError::NoVersionMatchesManifestMSRV(*self, clone_versions(available)))
    }
}

// ---------------------------------------------------------------------------
// Manifest reading.
//
// Manifest file mechanics stay outside the core: the caller parses the TOML
// text and hands over, as plain values, the string fields that can declare
// a minimum toolchain version. Everything from there on — the fallback
// between the two keys and the bare-version parse — is verified here.
// ---------------------------------------------------------------------------

/// The raw string fields of a manifest that can declare a minimum toolchain
/// version: `package.rust-version`, and the older `package.metadata.msrv`.
pub struct ManifestVersionFields {
    pub rust_version: Option<String>,
    pub metadata_msrv: Option<String>,
}

pub open spec fn opt_string_view(o: Option<String>) -> Option<Seq<char>> {
    match o {
        Some(x) => Some(x@),
        None => None,
    }
}

/// The field a manifest effectively declares: the standardized key when
/// present, else the fallback metadata key.
pub open spec fn spec_effective_field(rv: Option<Seq<char>>, mm: Option<Seq<char>>) -> Option<
    Seq<char>,
> {
    if rv is Some {
        rv
    } else {
        mm
    }
}

/// Picks the declared minimum version: `package.rust-version` if present,
/// else the `package.metadata.msrv` fallback.
fn find_minimum_rust_version(fields: ManifestVersionFields) -> (r: Option<String>)
    ensures
        opt_string_view(r) == spec_effective_field(
            opt_string_view(fields.rust_version),
            opt_string_view(fields.metadata_msrv),
        ),
{
    match fields.rust_version {
        Some(v) => Some(v),
        None => fields.metadata_msrv,
    }
}

/// The values a manifest holds that are relevant here: at most a declared
/// minimum toolchain version.
#[derive(Debug)]
pub struct CargoManifest {
    minimum_rust_version: Option<BareVersion>,
}

impl CargoManifest {
    pub closed spec fn spec_minimum_rust_version(&self) -> Option<BareVersion> {
        self.minimum_rust_version
    }

    pub fn minimum_rust_version(&self) -> (r: Option<&BareVersion>)
        ensures
            match r {
                Some(b) => self.spec_minimum_rust_version() == Some(*b),
                None => self.spec_minimum_rust_version() is None,
            },
    {
        self.minimum_rust_version.as_ref()
    }
}

/// A parser for manifests. Only the parts relevant to the minimum toolchain
/// version are read.
#[derive(Debug)]
pub struct CargoManifestParser;

impl Default for CargoManifestParser {
    fn default() -> (s: Self)
        ensures
            s == CargoManifestParser,
    {
        Self
    }
}

impl CargoManifestParser {
    /// Extracts the declared minimum toolchain version from a manifest's
    /// version fields, preferring `package.rust-version` over the
    /// `package.metadata.msrv` fallback. A malformed declared version fails
    /// with exactly the error its bare-version parse gives.
    pub fn parse(&self, fields: ManifestVersionFields) -> (r: Result<
        CargoManifest,
        CargoMSRVError,
    >)
        ensures
            (match spec_effective_field(
                opt_string_view(fields.rust_version),
                opt_string_view(fields.metadata_msrv),
            ) {
                None => r matches Ok(m) && m.spec_minimum_rust_version() is None,
                Some(f) => {
                    &&& (r is Ok <==> bare_version_parses(f))
                    &&& (r matches Ok(m) ==> m.spec_minimum_rust_version() == Some(
                        parsed_bare_version(f),
                    ))
                    &&& (r matches Err(e) ==> parse_error_for(e, f))
                },
            }),
    {
        match find_minimum_rust_version(fields) {
            None => Ok(CargoManifest { minimum_rust_version: None }),
            Some(raw) => match parse_bare_version(raw.as_str()) {
                Ok(b) => Ok(CargoManifest { minimum_rust_version: Some(b) }),
                Err(e) => Err(e),
            },
        }
    }
}

} // verus!
