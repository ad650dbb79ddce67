//! The semantic-version model: grammar, parsing and precedence.
//!
//! A semantic version is `major.minor.patch`, optionally followed by
//! `-` and dot-separated pre-release identifiers, then `+` and
//! dot-separated build identifiers. Precedence compares the numeric
//! triple, then the pre-release list; build metadata never orders.

use vstd::prelude::*;
use vstd::string::*;

use crate::strutil::find_from;
use crate::strutil::lemma_find_from;
use crate::strutil::find_char_from;
use crate::strutil::find_char_before;
use crate::strutil::push_char;

verus! {

/// A parsed semantic version. The numeric triple is bounded by `u64`;
/// pre-release and build identifiers keep their textual form.
#[derive(Debug, PartialEq, Eq)]
pub struct SemVer {
    pub major: u64,
    pub minor: u64,
    pub patch: u64,
    pub pre: Vec<String>,
    pub build: Vec<String>,
}

/// The mathematical value of a `SemVer`.
#[verifier::ext_equal]
pub ghost struct SemVerView {
    pub major: int,
    pub minor: int,
    pub patch: int,
    pub pre: Seq<Seq<char>>,
    pub build: Seq<Seq<char>>,
}

impl View for SemVer {
    type V = SemVerView;

    open spec fn view(&self) -> SemVerView {
        SemVerView {
            major: self.major as int,
            minor: self.minor as int,
            patch: self.patch as int,
            pre: self.pre@.map_values(|p: String| p@),
            build: self.build@.map_values(|p: String| p@),
        }
    }
}

// ---------------------------------------------------------------------------
// Character classes and digit strings
// ---------------------------------------------------------------------------

pub open spec fn is_digit(c: char) -> bool {
    '0' <= c && c <= '9'
}

/// The characters a pre-release or build identifier may hold.
pub open spec fn is_ident_char(c: char) -> bool {
    is_digit(c) || ('a' <= c && c <= 'z') || ('A' <= c && c <= 'Z') || c == '-'
}

pub open spec fn all_digits(s: Seq<char>) -> bool {
    forall|i: int| 0 <= i < s.len() ==> is_digit(#[trigger] s[i])
}

/// A numeric field of the version core: digits only, no leading zero.
pub open spec fn is_numeric_token(s: Seq<char>) -> bool {
    s.len() > 0 && all_digits(s) && (s[0] != '0' || s.len() == 1)
}

/// The number a digit string denotes.
pub open spec fn digits_val(s: Seq<char>) -> int
    decreases s.len(),
{
    if s.len() == 0 {
        0
    } else {
        digits_val(s.drop_last()) * 10 + (s.last() as int - '0' as int)
    }
}

pub proof fn lemma_digits_val_nonneg(s: Seq<char>)
    requires
        all_digits(s),
    ensures
        digits_val(s) >= 0,
    decreases s.len(),
{
    if s.len() > 0 {
        assert(all_digits(s.drop_last()));
        lemma_digits_val_nonneg(s.drop_last());
    }
}

/// Appending digits never decreases the denoted number.
pub proof fn lemma_digits_val_extend(s: Seq<char>, t: Seq<char>)
    requires
        all_digits(s),
        all_digits(t),
        s.is_prefix_of(t),
    ensures
        digits_val(s) <= digits_val(t),
    decreases t.len(),
{
    if t.len() > s.len() {
        assert(s.is_prefix_of(t.drop_last()));
        assert(all_digits(t.drop_last()));
        lemma_digits_val_extend(s, t.drop_last());
        lemma_digits_val_nonneg(t.drop_last());
    } else {
        assert(s =~= t);
    }
}

// ---------------------------------------------------------------------------
// Splitting on '.'
// ---------------------------------------------------------------------------

/// The dot-separated tokens of `s`; an empty string yields one empty token.
pub open spec fn split_dots(s: Seq<char>) -> Seq<Seq<char>>
    decreases s.len(),
{
    if s.len() == 0 {
        seq![Seq::<char>::empty()]
    } else if s[0] == '.' {
        seq![Seq::<char>::empty()] + split_dots(s.skip(1))
    } else {
        let rest = split_dots(s.skip(1));
        seq![seq![s[0]] + rest[0]] + rest.skip(1)
    }
}

pub proof fn lemma_split_dots_len(s: Seq<char>)
    ensures
        split_dots(s).len() >= 1,
    decreases s.len(),
{
    if s.len() > 0 {
        lemma_split_dots_len(s.skip(1));
    }
}

/// Extending a string by one character rewrites only the last token.
pub proof fn lemma_split_dots_push(s: Seq<char>, c: char)
    ensures
        split_dots(s).len() >= 1,
        c == '.' ==> split_dots(s.push(c)) =~= split_dots(s) + seq![Seq::<char>::empty()],
        c != '.' ==> split_dots(s.push(c)) =~= split_dots(s).update(
            split_dots(s).len() - 1,
            split_dots(s).last().push(c),
        ),
    decreases s.len(),
{
    lemma_split_dots_len(s);
    if s.len() == 0 {
        assert(s.push(c).skip(1) =~= Seq::<char>::empty());
        assert(split_dots(Seq::<char>::empty()) =~= seq![Seq::<char>::empty()]);
        assert(s.push(c)[0] == c);
        if c == '.' {
            assert(split_dots(s.push(c)) =~= seq![Seq::<char>::empty()] + split_dots(
                s.push(c).skip(1),
            ));
            assert(split_dots(s.push(c)) =~= split_dots(s) + seq![Seq::<char>::empty()]);
        } else {
            assert(split_dots(s.push(c)) =~= seq![
                seq![c] + split_dots(s.push(c).skip(1))[0],
            ] + split_dots(s.push(c).skip(1)).skip(1));
            assert(seq![c] + split_dots(s.push(c).skip(1))[0] =~= seq![c]);
            assert(split_dots(s.push(c)) =~= seq![seq![c]]);
            assert(split_dots(s).last().push(c) =~= seq![c]);
            assert(split_dots(s.push(c)) =~= split_dots(s).update(
                split_dots(s).len() - 1,
                split_dots(s).last().push(c),
            ));
        }
    } else {
        lemma_split_dots_push(s.skip(1), c);
        lemma_split_dots_len(s.skip(1));
        assert(s.push(c).skip(1) =~= s.skip(1).push(c));
        if c == '.' {
            if s[0] == '.' {
                assert(split_dots(s.push(c)) =~= split_dots(s) + seq![Seq::<char>::empty()]);
            } else {
                let rest = split_dots(s.skip(1));
                let restp = split_dots(s.skip(1).push(c));
                assert(restp =~= rest + seq![Seq::<char>::empty()]);
                assert(restp[0] =~= rest[0]);
                assert(split_dots(s.push(c)) =~= split_dots(s) + seq![Seq::<char>::empty()]);
            }
        } else {
            if s[0] == '.' {
                assert(split_dots(s.push(c)) =~= split_dots(s).update(
                    split_dots(s).len() - 1,
                    split_dots(s).last().push(c),
                ));
            } else {
                let rest = split_dots(s.skip(1));
                let restp = split_dots(s.skip(1).push(c));
                assert(restp =~= rest.update(rest.len() - 1, rest.last().push(c)));
                if rest.len() == 1 {
                    assert(restp[0] =~= rest[0].push(c));
                    assert(split_dots(s.push(c)) =~= split_dots(s).update(
                        split_dots(s).len() - 1,
                        split_dots(s).last().push(c),
                    ));
                } else {
                    assert(restp[0] =~= rest[0]);
                    assert(split_dots(s.push(c)) =~= split_dots(s).update(
                        split_dots(s).len() - 1,
                        split_dots(s).last().push(c),
                    ));
                }
            }
        }
    }
}

// ---------------------------------------------------------------------------
// Grammar of a full semantic version
// ---------------------------------------------------------------------------

pub open spec fn is_pre_ident(t: Seq<char>) -> bool {
    t.len() > 0 && (forall|i: int| 0 <= i < t.len() ==> is_ident_char(#[trigger] t[i]))
        && (all_digits(t) ==> (t[0] != '0' || t.len() == 1))
}

pub open spec fn is_build_ident(t: Seq<char>) -> bool {
    t.len() > 0 && (forall|i: int| 0 <= i < t.len() ==> is_ident_char(#[trigger] t[i]))
}

/// The `major.minor.patch` core: exactly three numeric tokens, each
/// fitting in a `u64`.
pub open spec fn valid_core(s: Seq<char>) -> bool {
    let toks = split_dots(s);
    toks.len() == 3 && (forall|i: int|
        0 <= i < 3 ==> is_numeric_token(#[trigger] toks[i]) && digits_val(toks[i]) <= u64::MAX)
}

pub open spec fn valid_pre(s: Seq<char>) -> bool {
    forall|i: int| 0 <= i < split_dots(s).len() ==> is_pre_ident(#[trigger] split_dots(s)[i])
}

pub open spec fn valid_build(s: Seq<char>) -> bool {
    forall|i: int| 0 <= i < split_dots(s).len() ==> is_build_ident(#[trigger] split_dots(s)[i])
}

/// Where the build metadata starts (the first `+`), or `s.len()`.
pub open spec fn build_start(s: Seq<char>) -> int {
    find_from(s, 0, '+')
}

/// Where the pre-release part starts within the text before the build
/// metadata (the first `-`), or the length of that text.
pub open spec fn pre_start(s: Seq<char>) -> int {
    find_from(s.take(build_start(s)), 0, '-')
}

pub open spec fn core_part(s: Seq<char>) -> Seq<char> {
    s.take(build_start(s)).take(pre_start(s))
}

pub open spec fn pre_part(s: Seq<char>) -> Seq<Seq<char>> {
    let cp = s.take(build_start(s));
    if pre_start(s) < cp.len() {
        split_dots(cp.skip(pre_start(s) + 1))
    } else {
        Seq::empty()
    }
}

pub open spec fn build_part(s: Seq<char>) -> Seq<Seq<char>> {
    if build_start(s) < s.len() {
        split_dots(s.skip(build_start(s) + 1))
    } else {
        Seq::empty()
    }
}

/// Whether `s` is a valid semantic version in full.
pub open spec fn valid_semver(s: Seq<char>) -> bool {
    let cp = s.take(build_start(s));
    &&& valid_core(core_part(s))
    &&& (pre_start(s) < cp.len() ==> valid_pre(cp.skip(pre_start(s) + 1)))
    &&& (build_start(s) < s.len() ==> valid_build(s.skip(build_start(s) + 1)))
}

/// The value a valid semantic-version string denotes.
pub open spec fn semver_of(s: Seq<char>) -> SemVerView {
    let toks = split_dots(core_part(s));
    SemVerView {
        major: digits_val(toks[0]),
        minor: digits_val(toks[1]),
        patch: digits_val(toks[2]),
        pre: pre_part(s),
        build: build_part(s),
    }
}

// ---------------------------------------------------------------------------
// Precedence
// ---------------------------------------------------------------------------

/// ASCII-lexicographic order on identifier text.
pub open spec fn lex_lt(a: Seq<char>, b: Seq<char>) -> bool
    decreases a.len(),
{
    if b.len() == 0 {
        false
    } else if a.len() == 0 {
        true
    } else if a[0] != b[0] {
        (a[0] as int) < (b[0] as int)
    } else {
        lex_lt(a.skip(1), b.skip(1))
    }
}

/// Order on single pre-release identifiers: numeric ones compare as
/// numbers and sort before alphanumeric ones; alphanumeric ones compare
/// lexicographically.
pub open spec fn ident_lt(a: Seq<char>, b: Seq<char>) -> bool {
    if all_digits(a) && all_digits(b) {
        digits_val(a) < digits_val(b)
    } else if all_digits(a) {
        true
    } else if all_digits(b) {
        false
    } else {
        lex_lt(a, b)
    }
}

/// Order on two non-empty pre-release identifier lists, element-wise;
/// a list that runs out first sorts lower.
pub open spec fn pre_seq_lt(a: Seq<Seq<char>>, b: Seq<Seq<char>>) -> bool
    decreases a.len(),
{
    if a.len() == 0 {
        b.len() > 0
    } else if b.len() == 0 {
        false
    } else if a[0] == b[0] {
        pre_seq_lt(a.skip(1), b.skip(1))
    } else {
        ident_lt(a[0], b[0])
    }
}

/// Order on pre-release lists: any pre-release sorts below the release
/// it precedes (the empty list).
pub open spec fn pre_lt(a: Seq<Seq<char>>, b: Seq<Seq<char>>) -> bool {
    if a.len() > 0 && b.len() == 0 {
        true
    } else if a.len() == 0 {
        false
    } else {
        pre_seq_lt(a, b)
    }
}

/// Standard semantic-version precedence; build metadata is ignored.
pub open spec fn sem_lt(a: SemVerView, b: SemVerView) -> bool {
    if a.major != b.major {
        a.major < b.major
    } else if a.minor != b.minor {
        a.minor < b.minor
    } else if a.patch != b.patch {
        a.patch < b.patch
    } else {
        pre_lt(a.pre, b.pre)
    }
}

// ---------------------------------------------------------------------------
// Rendering back to text
// ---------------------------------------------------------------------------

pub open spec fn digit_char(d: int) -> char {
    if d == 0 {
        '0'
    } else if d == 1 {
        '1'
    } else if d == 2 {
        '2'
    } else if d == 3 {
        '3'
    } else if d == 4 {
        '4'
    } else if d == 5 {
        '5'
    } else if d == 6 {
        '6'
    } else if d == 7 {
        '7'
    } else if d == 8 {
        '8'
    } else {
        '9'
    }
}

/// The decimal text of a non-negative number.
pub open spec fn dec_str(n: int) -> Seq<char>
    decreases n,
{
    if n < 10 {
        seq![digit_char(n)]
    } else {
        dec_str(n / 10).push(digit_char(n % 10))
    }
}

/// Tokens joined with a dot between each pair.
pub open spec fn join_dotted(toks: Seq<Seq<char>>) -> Seq<char>
    decreases toks.len(),
{
    if toks.len() == 0 {
        Seq::empty()
    } else if toks.len() == 1 {
        toks[0]
    } else {
        toks[0] + seq!['.'] + join_dotted(toks.skip(1))
    }
}

proof fn lemma_join_dotted_push(toks: Seq<Seq<char>>, x: Seq<char>)
    ensures
        toks.len() == 0 ==> join_dotted(toks.push(x)) =~= x,
        toks.len() > 0 ==> join_dotted(toks.push(x)) =~= join_dotted(toks) + seq!['.'] + x,
    decreases toks.len(),
{
    if toks.len() == 0 {
    } else if toks.len() == 1 {
        assert(toks.push(x).skip(1) =~= seq![x]);
        assert(join_dotted(seq![x]) =~= x);
    } else {
        lemma_join_dotted_push(toks.skip(1), x);
        assert(toks.push(x).skip(1) =~= toks.skip(1).push(x));
    }
}

/// The canonical text of a semantic version.
pub open spec fn semver_text(v: SemVerView) -> Seq<char> {
    dec_str(v.major) + seq!['.'] + dec_str(v.minor) + seq!['.'] + dec_str(v.patch) + (if v.pre.len()
        > 0 {
        seq!['-'] + join_dotted(v.pre)
    } else {
        Seq::empty()
    }) + (if v.build.len() > 0 {
        seq!['+'] + join_dotted(v.build)
    } else {
        Seq::empty()
    })
}

/// The decimal text of `n`.
pub fn u64_text(n: u64) -> (r: String)
    ensures
        r@ == dec_str(n as int),
{
    let mut digits: Vec<char> = Vec::new();
    let mut m = n;
    assert(digits@.reverse() =~= Seq::<char>::empty());
    assert(dec_str(n as int) =~= dec_str(m as int) + digits@.reverse());
    while m >= 10
        invariant
            dec_str(n as int) =~= dec_str(m as int) + digits@.reverse(),
        decreases m,
    {
        let d = (m % 10) as u8;
        let c = (48 + d) as char;
        proof {
            assert(c == digit_char((m % 10) as int));
            assert(digits@.push(c).reverse() =~= seq![c] + digits@.reverse());
            assert(dec_str(m as int) =~= dec_str((m as int) / 10).push(digit_char((m % 10) as int)));
            assert(dec_str((m / 10) as int) + digits@.push(c).reverse() =~= dec_str(m as int)
                + digits@.reverse());
        }
        digits.push(c);
        m = m / 10;
    }
    let d = m as u8;
    let c = (48 + d) as char;
    proof {
        assert(c == digit_char(m as int));
        assert(digits@.push(c).reverse() =~= seq![c] + digits@.reverse());
        assert(dec_str(m as int) =~= seq![digit_char(m as int)]);
        assert(dec_str(n as int) =~= digits@.push(c).reverse());
    }
    digits.push(c);
    let k = digits.len();
    let mut rev: Vec<char> = Vec::new();
    for i in it: 0..k
        invariant
            k == digits@.len(),
            rev@ =~= digits@.reverse().take(i as int),
    {
        rev.push(digits[k - 1 - i]);
        assert(rev@ =~= digits@.reverse().take(i + 1));
    }
    assert(digits@.reverse().take(k as int) =~= digits@.reverse());
    crate::strutil::string_of_chars(&rev)
}

/// Join tokens with dots.
fn join_tokens(v: &Vec<String>) -> (r: String)
    ensures
        r@ == join_dotted(v@.map_values(|t: String| t@)),
{
    let ghost tv = v@.map_values(|t: String| t@);
    let mut r = String::new();
    let n = v.len();
    assert(tv.take(0) =~= Seq::<Seq<char>>::empty());
    for i in it: 0..n
        invariant
            n == v@.len(),
            tv == v@.map_values(|t: String| t@),
            r@ =~= join_dotted(tv.take(i as int)),
    {
        proof {
            lemma_join_dotted_push(tv.take(i as int), tv[i as int]);
            assert(tv.take(i + 1) =~= tv.take(i as int).push(tv[i as int]));
        }
        if i > 0 {
            r.append(".");
            proof {
                reveal_strlit(".");
                assert("."@ =~= seq!['.']);
            }
        }
        r.append(v[i].as_str());
        assert(r@ =~= join_dotted(tv.take(i + 1)));
    }
    assert(tv.take(n as int) =~= tv);
    r
}

impl SemVer {
    /// The canonical `major.minor.patch[-pre][+build]` text.
    pub fn text(&self) -> (r: String)
        ensures
            r@ == semver_text(self@),
    {
        let mut r = u64_text(self.major);
        proof {
            reveal_strlit(".");
            reveal_strlit("-");
            reveal_strlit("+");
            assert("."@ =~= seq!['.']);
            assert("-"@ =~= seq!['-']);
            assert("+"@ =~= seq!['+']);
        }
        r.append(".");
        let minor = u64_text(self.minor);
        r.append(minor.as_str());
        r.append(".");
        let patch = u64_text(self.patch);
        r.append(patch.as_str());
        if self.pre.len() > 0 {
            r.append("-");
            let p = join_tokens(&self.pre);
            r.append(p.as_str());
        }
        if self.build.len() > 0 {
            r.append("+");
            let b = join_tokens(&self.build);
            r.append(b.as_str());
        }
        proof {
            assert(r@ =~= semver_text(self@));
        }
        r
    }
}

// ---------------------------------------------------------------------------
// Digit strings ordered by value
// ---------------------------------------------------------------------------

pub open spec fn pow10(n: int) -> int
    decreases n,
{
    if n <= 0 {
        1
    } else {
        10 * pow10(n - 1)
    }
}

proof fn lemma_pow10_pos(n: int)
    ensures
        pow10(n) >= 1,
    decreases n,
{
    if n > 0 {
        lemma_pow10_pos(n - 1);
    }
}

proof fn lemma_pow10_mono(a: int, b: int)
    requires
        a <= b,
    ensures
        pow10(a) <= pow10(b),
        pow10(a) >= 1,
    decreases b - a,
{
    lemma_pow10_pos(a);
    if a < b {
        lemma_pow10_mono(a, b - 1);
        lemma_pow10_pos(b - 1);
    }
}

proof fn lemma_val_upper(s: Seq<char>)
    requires
        all_digits(s),
    ensures
        digits_val(s) < pow10(s.len() as int),
    decreases s.len(),
{
    if s.len() == 0 {
    } else {
        assert(all_digits(s.drop_last()));
        lemma_val_upper(s.drop_last());
        assert(s.last() as int - '0' as int <= 9);
    }
}

/// The head digit weighs `pow10` of the remaining length.
proof fn lemma_val_head(s: Seq<char>)
    requires
        s.len() > 0,
    ensures
        digits_val(s) == (s[0] as int - '0' as int) * pow10(s.len() - 1) + digits_val(s.skip(1)),
    decreases s.len(),
{
    if s.len() == 1 {
        assert(s.skip(1) =~= Seq::<char>::empty());
        assert(s.drop_last() =~= Seq::<char>::empty());
        assert(digits_val(Seq::<char>::empty()) == 0);
        assert(pow10(0) == 1);
    } else {
        let d = s.drop_last();
        lemma_val_head(d);
        assert(s.skip(1).drop_last() =~= d.skip(1));
        assert(s.skip(1).last() == s.last());
        assert(s.skip(1).len() > 0);
        let h = s[0] as int - '0' as int;
        let p = pow10(d.len() - 1);
        let v1 = digits_val(d.skip(1));
        assert(digits_val(s) == digits_val(d) * 10 + (s.last() as int - '0' as int));
        assert(digits_val(d) == h * p + v1);
        assert((h * p + v1) * 10 == h * (p * 10) + v1 * 10) by (nonlinear_arith);
        assert(p * 10 == pow10(s.len() - 1));
        assert(digits_val(s.skip(1)) == v1 * 10 + (s.last() as int - '0' as int));
    }
}

proof fn lemma_val_lower(s: Seq<char>)
    requires
        all_digits(s),
        s.len() > 0,
        s[0] != '0',
    ensures
        digits_val(s) >= pow10(s.len() - 1),
{
    lemma_val_head(s);
    assert(all_digits(s.skip(1)));
    lemma_digits_val_nonneg(s.skip(1));
    lemma_pow10_mono(0, s.len() - 1);
    let h = s[0] as int - '0' as int;
    assert(h >= 1);
    assert(h * pow10(s.len() - 1) >= pow10(s.len() - 1)) by (nonlinear_arith)
        requires
            h >= 1,
            pow10(s.len() - 1) >= 1,
    ;
}

/// A shorter numeric token denotes the smaller number.
proof fn lemma_num_len_lt(a: Seq<char>, b: Seq<char>)
    requires
        is_numeric_token(a),
        is_numeric_token(b),
        a.len() < b.len(),
    ensures
        digits_val(a) < digits_val(b),
{
    lemma_val_upper(a);
    assert(b.len() > 1);
    assert(b[0] != '0');
    lemma_val_lower(b);
    lemma_pow10_mono(a.len() as int, b.len() - 1);
}

/// Digit strings of one length compare by value exactly as text.
proof fn lemma_num_lex(a: Seq<char>, b: Seq<char>)
    requires
        all_digits(a),
        all_digits(b),
        a.len() == b.len(),
    ensures
        lex_lt(a, b) == (digits_val(a) < digits_val(b)),
    decreases a.len(),
{
    if a.len() == 0 {
    } else if a[0] == b[0] {
        assert(all_digits(a.skip(1)));
        assert(all_digits(b.skip(1)));
        lemma_num_lex(a.skip(1), b.skip(1));
        lemma_val_head(a);
        lemma_val_head(b);
    } else {
        lemma_val_head(a);
        lemma_val_head(b);
        lemma_val_upper(a.skip(1));
        lemma_val_upper(b.skip(1));
        lemma_digits_val_nonneg(a.skip(1));
        lemma_digits_val_nonneg(b.skip(1));
        lemma_pow10_mono(0, a.len() - 1);
        let ha = a[0] as int - '0' as int;
        let hb = b[0] as int - '0' as int;
        let p = pow10(a.len() - 1);
        if ha < hb {
            assert(ha * p + (p - 1) < hb * p) by (nonlinear_arith)
                requires
                    ha < hb,
                    p >= 1,
            ;
        } else {
            assert(hb * p + (p - 1) < ha * p) by (nonlinear_arith)
                requires
                    hb < ha,
                    p >= 1,
            ;
        }
    }
}

// ---------------------------------------------------------------------------
// The precedence relation is a strict order
// ---------------------------------------------------------------------------

proof fn lemma_lex_lt_trans(a: Seq<char>, b: Seq<char>, c: Seq<char>)
    requires
        lex_lt(a, b),
        lex_lt(b, c),
    ensures
        lex_lt(a, c),
    decreases a.len(),
{
    if a.len() > 0 && b.len() > 0 && c.len() > 0 {
        if a[0] == b[0] && b[0] == c[0] {
            lemma_lex_lt_trans(a.skip(1), b.skip(1), c.skip(1));
        }
    }
}

proof fn lemma_lex_lt_asym(a: Seq<char>, b: Seq<char>)
    requires
        lex_lt(a, b),
    ensures
        !lex_lt(b, a),
        a != b,
    decreases a.len(),
{
    if a.len() > 0 && b.len() > 0 && a[0] == b[0] {
        lemma_lex_lt_asym(a.skip(1), b.skip(1));
        assert(a != b) by {
            assert(a.skip(1) != b.skip(1));
        }
    }
}

/// Equal-length texts that neither precedes are equal.
proof fn lemma_lex_eq(a: Seq<char>, b: Seq<char>)
    requires
        a.len() == b.len(),
        !lex_lt(a, b),
        !lex_lt(b, a),
    ensures
        a == b,
    decreases a.len(),
{
    if a.len() > 0 {
        assert(a[0] == b[0]);
        lemma_lex_eq(a.skip(1), b.skip(1));
        assert(a =~= seq![a[0]] + a.skip(1));
        assert(b =~= seq![b[0]] + b.skip(1));
    }
}

/// Two distinct valid numeric identifiers denote distinct numbers.
proof fn lemma_num_unique(a: Seq<char>, b: Seq<char>)
    requires
        is_pre_ident(a),
        is_pre_ident(b),
        all_digits(a),
        all_digits(b),
        a != b,
    ensures
        digits_val(a) != digits_val(b),
{
    if a.len() < b.len() {
        lemma_num_len_lt(a, b);
    } else if b.len() < a.len() {
        lemma_num_len_lt(b, a);
    } else {
        if !lex_lt(a, b) && !lex_lt(b, a) {
            lemma_lex_eq(a, b);
        }
        if lex_lt(a, b) {
            lemma_num_lex(a, b);
        } else {
            lemma_num_lex(b, a);
        }
    }
}

proof fn lemma_ident_lt_trans(a: Seq<char>, b: Seq<char>, c: Seq<char>)
    requires
        is_pre_ident(a),
        is_pre_ident(b),
        is_pre_ident(c),
        ident_lt(a, b),
        ident_lt(b, c),
    ensures
        ident_lt(a, c),
{
    if !all_digits(a) && !all_digits(b) && !all_digits(c) {
        lemma_lex_lt_trans(a, b, c);
    }
}

proof fn lemma_ident_lt_asym(a: Seq<char>, b: Seq<char>)
    requires
        is_pre_ident(a),
        is_pre_ident(b),
        ident_lt(a, b),
    ensures
        !ident_lt(b, a),
        a != b,
{
    if all_digits(a) && all_digits(b) {
        if a != b {
            lemma_num_unique(a, b);
        }
    } else if !all_digits(a) && !all_digits(b) {
        lemma_lex_lt_asym(a, b);
    }
}

/// Every stored pre-release identifier obeys the grammar.
pub open spec fn wf_pre_list(p: Seq<Seq<char>>) -> bool {
    forall|i: int| 0 <= i < p.len() ==> is_pre_ident(#[trigger] p[i])
}

proof fn lemma_pre_seq_lt_trans(a: Seq<Seq<char>>, b: Seq<Seq<char>>, c: Seq<Seq<char>>)
    requires
        wf_pre_list(a),
        wf_pre_list(b),
        wf_pre_list(c),
        pre_seq_lt(a, b),
        pre_seq_lt(b, c),
    ensures
        pre_seq_lt(a, c),
    decreases a.len(),
{
    if a.len() == 0 {
        if b.len() == 0 {
        } else {
            assert(c.len() > 0);
        }
    } else if b.len() == 0 {
    } else if c.len() == 0 {
    } else {
        assert(wf_pre_list(a.skip(1)));
        assert(wf_pre_list(b.skip(1)));
        assert(wf_pre_list(c.skip(1)));
        if a[0] == b[0] && b[0] == c[0] {
            lemma_pre_seq_lt_trans(a.skip(1), b.skip(1), c.skip(1));
        } else if a[0] == b[0] {
            assert(ident_lt(b[0], c[0]));
        } else if b[0] == c[0] {
            assert(ident_lt(a[0], b[0]));
        } else {
            lemma_ident_lt_trans(a[0], b[0], c[0]);
            lemma_ident_lt_asym(a[0], b[0]);
            lemma_ident_lt_asym(b[0], c[0]);
            lemma_ident_lt_asym(a[0], c[0]);
        }
    }
}

proof fn lemma_pre_seq_lt_asym(a: Seq<Seq<char>>, b: Seq<Seq<char>>)
    requires
        wf_pre_list(a),
        wf_pre_list(b),
        pre_seq_lt(a, b),
    ensures
        !pre_seq_lt(b, a),
    decreases a.len(),
{
    if a.len() == 0 {
    } else if b.len() == 0 {
    } else if a[0] == b[0] {
        assert(wf_pre_list(a.skip(1)));
        assert(wf_pre_list(b.skip(1)));
        lemma_pre_seq_lt_asym(a.skip(1), b.skip(1));
    } else {
        lemma_ident_lt_asym(a[0], b[0]);
    }
}

/// The precedence relation is transitive over well-formed versions.
pub proof fn lemma_sem_lt_trans(a: SemVerView, b: SemVerView, c: SemVerView)
    requires
        wf_pre_list(a.pre),
        wf_pre_list(b.pre),
        wf_pre_list(c.pre),
        sem_lt(a, b),
        sem_lt(b, c),
    ensures
        sem_lt(a, c),
{
    if a.major == c.major && a.minor == c.minor && a.patch == c.patch && a.major == b.major
        && a.minor == b.minor && a.patch == b.patch {
        if a.pre.len() > 0 && b.pre.len() > 0 && c.pre.len() > 0 {
            lemma_pre_seq_lt_trans(a.pre, b.pre, c.pre);
        }
    }
}

/// Texts neither of which precedes the other are equal.
proof fn lemma_lex_total(a: Seq<char>, b: Seq<char>)
    requires
        !lex_lt(a, b),
        !lex_lt(b, a),
    ensures
        a == b,
    decreases a.len(),
{
    if a.len() == 0 {
        assert(b.len() == 0);
        assert(a =~= b);
    } else {
        assert(b.len() > 0);
        assert(a[0] == b[0]);
        lemma_lex_total(a.skip(1), b.skip(1));
        assert(a =~= seq![a[0]] + a.skip(1));
        assert(b =~= seq![b[0]] + b.skip(1));
    }
}

/// Identifiers neither of which precedes the other are equal.
proof fn lemma_ident_total(a: Seq<char>, b: Seq<char>)
    requires
        is_pre_ident(a),
        is_pre_ident(b),
        !ident_lt(a, b),
        !ident_lt(b, a),
    ensures
        a == b,
{
    if all_digits(a) && all_digits(b) {
        if a != b {
            lemma_num_unique(a, b);
        }
    } else if !all_digits(a) && !all_digits(b) {
        lemma_lex_total(a, b);
    }
}

/// Identifier lists neither of which precedes the other are equal.
proof fn lemma_pre_seq_total(a: Seq<Seq<char>>, b: Seq<Seq<char>>)
    requires
        wf_pre_list(a),
        wf_pre_list(b),
        !pre_seq_lt(a, b),
        !pre_seq_lt(b, a),
    ensures
        a == b,
    decreases a.len(),
{
    if a.len() == 0 {
        assert(b.len() == 0);
        assert(a =~= b);
    } else {
        assert(b.len() > 0);
        if a[0] == b[0] {
            assert(wf_pre_list(a.skip(1)));
            assert(wf_pre_list(b.skip(1)));
            lemma_pre_seq_total(a.skip(1), b.skip(1));
            assert(a =~= seq![a[0]] + a.skip(1));
            assert(b =~= seq![b[0]] + b.skip(1));
        } else {
            lemma_ident_total(a[0], b[0]);
        }
    }
}

/// Law: precedence is total up to build metadata — two well-formed
/// versions that neither precede each other agree on the numeric triple
/// and the whole pre-release list.
pub proof fn lemma_sem_lt_total(a: SemVerView, b: SemVerView)
    requires
        wf_pre_list(a.pre),
        wf_pre_list(b.pre),
        !sem_lt(a, b),
        !sem_lt(b, a),
    ensures
        a.major == b.major,
        a.minor == b.minor,
        a.patch == b.patch,
        a.pre == b.pre,
{
    if a.pre.len() == 0 || b.pre.len() == 0 {
        assert(a.pre.len() == 0 && b.pre.len() == 0);
        assert(a.pre =~= b.pre);
    } else {
        lemma_pre_seq_total(a.pre, b.pre);
    }
}

/// The precedence relation is asymmetric over well-formed versions.
pub proof fn lemma_sem_lt_asym(a: SemVerView, b: SemVerView)
    requires
        wf_pre_list(a.pre),
        wf_pre_list(b.pre),
        sem_lt(a, b),
    ensures
        !sem_lt(b, a),
{
    if a.major == b.major && a.minor == b.minor && a.patch == b.patch {
        if a.pre.len() > 0 && b.pre.len() > 0 {
            lemma_pre_seq_lt_asym(a.pre, b.pre);
        }
    }
}

// ---------------------------------------------------------------------------
// Executable comparison
// ---------------------------------------------------------------------------

/// A value-equal copy of a list of strings.
fn dup_strings(v: &Vec<String>) -> (r: Vec<String>)
    ensures
        r@ == v@,
{
    let mut r: Vec<String> = Vec::new();
    let n = v.len();
    for i in it: 0..n
        invariant
            n == v@.len(),
            r@ =~= v@.take(i as int),
    {
        r.push(v[i].clone());
        assert(r@ =~= v@.take(i + 1));
    }
    assert(v@.take(n as int) =~= v@);
    r
}

/// Decide ASCII-lexicographic order of two string slices.
fn lex_lt_exec(a: &str, b: &str) -> (r: bool)
    ensures
        r == lex_lt(a@, b@),
{
    let a_len = a.unicode_len();
    let b_len = b.unicode_len();
    let mut i: usize = 0;
    assert(a@.skip(0) =~= a@);
    assert(b@.skip(0) =~= b@);
    while i < a_len && i < b_len
        invariant
            i <= a_len == a@.len(),
            i <= b_len == b@.len(),
            lex_lt(a@, b@) == lex_lt(a@.skip(i as int), b@.skip(i as int)),
        decreases a_len - i,
    {
        let ca = a.get_char(i);
        let cb = b.get_char(i);
        if ca != cb {
            return (ca as u32) < (cb as u32);
        }
        proof {
            assert(a@.skip(i as int).skip(1) =~= a@.skip(i + 1));
            assert(b@.skip(i as int).skip(1) =~= b@.skip(i + 1));
        }
        i = i + 1;
    }
    i < b_len
}

/// Decide value order of two numeric tokens, via length then text.
fn num_token_lt(a: &str, b: &str) -> (r: bool)
    requires
        is_numeric_token(a@),
        is_numeric_token(b@),
    ensures
        r == (digits_val(a@) < digits_val(b@)),
{
    let a_len = a.unicode_len();
    let b_len = b.unicode_len();
    if a_len < b_len {
        proof {
            lemma_num_len_lt(a@, b@);
        }
        true
    } else if b_len < a_len {
        proof {
            lemma_num_len_lt(b@, a@);
        }
        false
    } else {
        proof {
            lemma_num_lex(a@, b@);
        }
        lex_lt_exec(a, b)
    }
}

/// Decide the order of two pre-release identifiers.
fn ident_lt_exec(a: &String, b: &String) -> (r: bool)
    requires
        is_pre_ident(a@),
        is_pre_ident(b@),
    ensures
        r == ident_lt(a@, b@),
{
    let a_num = check_all_digits(a.as_str());
    let b_num = check_all_digits(b.as_str());
    if a_num && b_num {
        num_token_lt(a.as_str(), b.as_str())
    } else if a_num {
        true
    } else if b_num {
        false
    } else {
        lex_lt_exec(a.as_str(), b.as_str())
    }
}

/// Decide the order of two pre-release identifier lists.
fn pre_lt_exec(a: &Vec<String>, b: &Vec<String>) -> (r: bool)
    requires
        forall|i: int| 0 <= i < a@.len() ==> is_pre_ident(#[trigger] a@[i]@),
        forall|i: int| 0 <= i < b@.len() ==> is_pre_ident(#[trigger] b@[i]@),
    ensures
        r == pre_lt(a@.map_values(|t: String| t@), b@.map_values(|t: String| t@)),
{
    let ghost av = a@.map_values(|t: String| t@);
    let ghost bv = b@.map_values(|t: String| t@);
    let a_len = a.len();
    let b_len = b.len();
    if a_len > 0 && b_len == 0 {
        return true;
    }
    if a_len == 0 {
        return false;
    }
    let mut i: usize = 0;
    assert(av.skip(0) =~= av);
    assert(bv.skip(0) =~= bv);
    while i < a_len && i < b_len
        invariant
            i <= a_len == a@.len(),
            i <= b_len == b@.len(),
            av == a@.map_values(|t: String| t@),
            bv == b@.map_values(|t: String| t@),
            pre_seq_lt(av, bv) == pre_seq_lt(av.skip(i as int), bv.skip(i as int)),
            forall|j: int| 0 <= j < a@.len() ==> is_pre_ident(#[trigger] a@[j]@),
            forall|j: int| 0 <= j < b@.len() ==> is_pre_ident(#[trigger] b@[j]@),
        decreases a_len - i,
    {
        let ta = &a[i];
        let tb = &b[i];
        if crate::strutil::str_eq(ta.as_str(), tb.as_str()) {
            proof {
                assert(av.skip(i as int)[0] == bv.skip(i as int)[0]);
                assert(av.skip(i as int).skip(1) =~= av.skip(i + 1));
                assert(bv.skip(i as int).skip(1) =~= bv.skip(i + 1));
            }
            i = i + 1;
        } else {
            proof {
                assert(av.skip(i as int)[0] != bv.skip(i as int)[0]);
            }
            return ident_lt_exec(ta, tb);
        }
    }
    proof {
        if i == a_len {
            assert(av.skip(i as int) =~= Seq::<Seq<char>>::empty());
        } else {
            assert(bv.skip(i as int) =~= Seq::<Seq<char>>::empty());
        }
    }
    i < b_len
}

/// Split the window `s[from..to)` of `s` at every dot.
fn split_tokens(s: &str, s_len: usize, from: usize, to: usize) -> (r: Vec<String>)
    requires
        s_len == s@.len(),
        from <= to <= s_len,
    ensures
        r@.map_values(|t: String| t@) == split_dots(s@.subrange(from as int, to as int)),
        r@.len() >= 1,
{
    let mut out: Vec<String> = Vec::new();
    let mut cur: String = String::new();
    assert(s@.subrange(from as int, from as int) =~= Seq::<char>::empty());
    assert(out@.map_values(|t: String| t@) + seq![cur@] =~= split_dots(
        s@.subrange(from as int, from as int),
    ));
    for i in it: from..to
        invariant
            s_len == s@.len(),
            from <= to <= s_len,
            out@.map_values(|t: String| t@) + seq![cur@] =~= split_dots(
                s@.subrange(from as int, i as int),
            ),
    {
        let ghost pfx = s@.subrange(from as int, i as int);
        let c = s.get_char(i);
        proof {
            lemma_split_dots_push(pfx, c);
            assert(s@.subrange(from as int, i + 1) =~= pfx.push(c));
        }
        if c == '.' {
            out.push(cur);
            cur = String::new();
            assert(out@.map_values(|t: String| t@) + seq![cur@] =~= split_dots(pfx.push(c)));
        } else {
            push_char(&mut cur, c);
            assert(out@.map_values(|t: String| t@) + seq![cur@] =~= split_dots(pfx.push(c)));
        }
    }
    out.push(cur);
    proof {
        lemma_split_dots_len(s@.subrange(from as int, to as int));
        assert(out@.map_values(|t: String| t@) =~= split_dots(s@.subrange(from as int, to as int)));
    }
    out
}

/// Whether all characters of `t` are digits.
fn check_all_digits(t: &str) -> (r: bool)
    ensures
        r == all_digits(t@),
{
    let n = t.unicode_len();
    for i in it: 0..n
        invariant
            n == t@.len(),
            forall|j: int| 0 <= j < i ==> is_digit(#[trigger] t@[j]),
    {
        let c = t.get_char(i);
        if !('0' <= c && c <= '9') {
            return false;
        }
    }
    true
}

/// Whether all characters of `t` may stand in an identifier.
fn check_all_ident_chars(t: &str) -> (r: bool)
    ensures
        r == (forall|i: int| 0 <= i < t@.len() ==> is_ident_char(#[trigger] t@[i])),
{
    let n = t.unicode_len();
    for i in it: 0..n
        invariant
            n == t@.len(),
            forall|j: int| 0 <= j < i ==> is_ident_char(#[trigger] t@[j]),
    {
        let c = t.get_char(i);
        let ok = ('0' <= c && c <= '9') || ('a' <= c && c <= 'z') || ('A' <= c && c <= 'Z') || c
            == '-';
        if !ok {
            return false;
        }
    }
    true
}

/// Whether `t` is a valid pre-release identifier.
fn check_pre_ident(t: &String) -> (r: bool)
    ensures
        r == is_pre_ident(t@),
{
    let n = t.as_str().unicode_len();
    if n == 0 {
        return false;
    }
    if !check_all_ident_chars(t.as_str()) {
        return false;
    }
    if check_all_digits(t.as_str()) {
        let c0 = t.as_str().get_char(0);
        c0 != '0' || n == 1
    } else {
        true
    }
}

/// Whether `t` is a valid build identifier.
fn check_build_ident(t: &String) -> (r: bool)
    ensures
        r == is_build_ident(t@),
{
    let n = t.as_str().unicode_len();
    if n == 0 {
        return false;
    }
    check_all_ident_chars(t.as_str())
}

/// Parse a numeric core token into its value, refusing leading zeros
/// and values beyond `u64`.
fn parse_numeric_token(t: &String) -> (r: Option<u64>)
    ensures
        match r {
            Some(n) => is_numeric_token(t@) && n == digits_val(t@),
            None => !(is_numeric_token(t@) && digits_val(t@) <= u64::MAX),
        },
{
    let n = t.as_str().unicode_len();
    if n == 0 {
        return None;
    }
    if !check_all_digits(t.as_str()) {
        return None;
    }
    if n > 1 && t.as_str().get_char(0) == '0' {
        return None;
    }
    let mut acc: u64 = 0;
    assert(t@.subrange(0, 0) =~= Seq::<char>::empty());
    for i in it: 0..n
        invariant
            n == t@.len(),
            all_digits(t@),
            acc == digits_val(t@.subrange(0, i as int)),
    {
        let c = t.as_str().get_char(i);
        let d = (c as u32 - '0' as u32) as u64;
        let ghost pfx = t@.subrange(0, i as int);
        proof {
            assert(t@.subrange(0, i + 1) =~= pfx.push(c));
            assert(pfx.push(c).drop_last() =~= pfx);
            assert(digits_val(t@.subrange(0, i + 1)) == acc * 10 + d);
        }
        if acc > (u64::MAX - d) / 10 {
            proof {
                lemma_digits_val_nonneg(pfx);
                assert(acc * 10 + d > u64::MAX) by (nonlinear_arith)
                    requires
                        acc > (u64::MAX - d) / 10,
                        d <= 9,
                        acc >= 0,
                ;
                assert(all_digits(t@.subrange(0, i + 1)));
                assert(t@.subrange(0, i + 1).is_prefix_of(t@));
                lemma_digits_val_extend(t@.subrange(0, i + 1), t@);
            }
            return None;
        }
        proof {
            assert(acc * 10 + d <= u64::MAX) by (nonlinear_arith)
                requires
                    acc <= (u64::MAX - d) / 10,
                    d <= 9,
                    acc >= 0,
            ;
        }
        acc = acc * 10 + d;
    }
    assert(t@.subrange(0, n as int) =~= t@);
    Some(acc)
}

/// Every stored build identifier obeys the grammar.
pub open spec fn wf_build_list(b: Seq<Seq<char>>) -> bool {
    forall|i: int| 0 <= i < b.len() ==> is_build_ident(#[trigger] b[i])
}

/// Every identifier of the version obeys the grammar.
pub open spec fn wf_sem(v: SemVerView) -> bool {
    wf_pre_list(v.pre) && wf_build_list(v.build)
}

/// A valid version text denotes a well-formed version.
pub proof fn lemma_semver_of_wf(s: Seq<char>)
    requires
        valid_semver(s),
    ensures
        wf_sem(semver_of(s)),
{
}

impl SemVer {
    /// Well-formedness: every stored identifier obeys the grammar.
    pub open spec fn wf(&self) -> bool {
        wf_sem(self@)
    }

    /// A value-equal copy.
    pub fn duplicate(&self) -> (r: SemVer)
        ensures
            r@ == self@,
    {
        let r = SemVer {
            major: self.major,
            minor: self.minor,
            patch: self.patch,
            pre: dup_strings(&self.pre),
            build: dup_strings(&self.build),
        };
        proof {
            assert(r@ =~= self@);
        }
        r
    }

    /// Parse a full semantic-version string; `None` exactly when the
    /// grammar is not met.
    pub fn parse(s: &str) -> (r: Option<SemVer>)
        ensures
            match r {
                Some(v) => valid_semver(s@) && v@ == semver_of(s@) && v.wf(),
                None => !valid_semver(s@),
            },
    {
        let s_len = s.unicode_len();
        let b = find_char_from(s, s_len, 0, '+');
        proof {
            lemma_find_from(s@, 0, '+');
        }
        let h = find_char_before(s, s_len, b, '-');
        proof {
            lemma_find_from(s@.take(b as int), 0, '-');
            assert(core_part(s@) =~= s@.subrange(0, h as int));
        }
        let toks = split_tokens(s, s_len, 0, h);
        if toks.len() != 3 {
            return None;
        }
        let major = match parse_numeric_token(&toks[0]) {
            Some(v) => v,
            None => {
                assert(split_dots(core_part(s@))[0] == toks@.map_values(|t: String| t@)[0]);
                return None;
            },
        };
        let minor = match parse_numeric_token(&toks[1]) {
            Some(v) => v,
            None => {
                assert(split_dots(core_part(s@))[1] == toks@.map_values(|t: String| t@)[1]);
                return None;
            },
        };
        let patch = match parse_numeric_token(&toks[2]) {
            Some(v) => v,
            None => {
                assert(split_dots(core_part(s@))[2] == toks@.map_values(|t: String| t@)[2]);
                return None;
            },
        };
        let mut pre: Vec<String> = Vec::new();
        if h < b {
            pre = split_tokens(s, s_len, h + 1, b);
            proof {
                assert(s@.take(b as int).skip(h + 1) =~= s@.subrange(h + 1, b as int));
            }
            let n_pre = pre.len();
            for i in it: 0..n_pre
                invariant
                    n_pre == pre.len(),
                    pre@.map_values(|t: String| t@) == pre_part(s@),
                    pre_start(s@) < s@.take(build_start(s@)).len(),
                    forall|j: int| 0 <= j < i ==> is_pre_ident(#[trigger] pre_part(s@)[j]),
            {
                if !check_pre_ident(&pre[i]) {
                    assert(!is_pre_ident(pre_part(s@)[i as int]));
                    return None;
                }
                assert(pre@.map_values(|t: String| t@)[i as int] == pre@[i as int]@);
            }
        }
        let mut build: Vec<String> = Vec::new();
        if b < s_len {
            build = split_tokens(s, s_len, b + 1, s_len);
            proof {
                assert(s@.skip(b + 1) =~= s@.subrange(b + 1, s_len as int));
            }
            let n_build = build.len();
            for i in it: 0..n_build
                invariant
                    n_build == build.len(),
                    build@.map_values(|t: String| t@) == build_part(s@),
                    build_start(s@) < s@.len(),
                    forall|j: int| 0 <= j < i ==> is_build_ident(#[trigger] build_part(s@)[j]),
            {
                if !check_build_ident(&build[i]) {
                    assert(!is_build_ident(build_part(s@)[i as int]));
                    return None;
                }
                assert(build@.map_values(|t: String| t@)[i as int] == build@[i as int]@);
            }
        }
        let v = SemVer { major, minor, patch, pre, build };
        proof {
            assert(valid_core(core_part(s@)));
            assert(valid_semver(s@));
            assert(v@ =~= semver_of(s@));
        }
        Some(v)
    }

    /// Whether `self` precedes `other` under semantic-version
    /// precedence; build metadata never participates.
    pub fn precedes(&self, other: &SemVer) -> (r: bool)
        requires
            self.wf(),
            other.wf(),
        ensures
            r == sem_lt(self@, other@),
    {
        if self.major != other.major {
            self.major < other.major
        } else if self.minor != other.minor {
            self.minor < other.minor
        } else if self.patch != other.patch {
            self.patch < other.patch
        } else {
            proof {
                assert forall|i: int| 0 <= i < self.pre@.len() implies is_pre_ident(
                    #[trigger] self.pre@[i]@,
                ) by {
                    assert(self@.pre[i] == self.pre@[i]@);
                }
                assert forall|i: int| 0 <= i < other.pre@.len() implies is_pre_ident(
                    #[trigger] other.pre@[i]@,
                ) by {
                    assert(other@.pre[i] == other.pre@[i]@);
                }
            }
            pre_lt_exec(&self.pre, &other.pre)
        }
    }
}

} // verus!
