//! Version tags: a free-form prefix followed by a semantic version,
//! the set of versions found in a repository, and the choice of one
//! tag-naming scheme.

use vstd::prelude::*;
use vstd::string::*;
use vstd::seq_lib::*;

use crate::Error;
use crate::semver::SemVer;
use crate::semver::SemVerView;
use crate::semver::all_digits;
use crate::semver::is_digit;
use crate::semver::sem_lt;
use crate::semver::semver_of;
use crate::semver::semver_text;
use crate::semver::valid_semver;
use crate::semver::wf_sem;
use crate::semver::lemma_semver_of_wf;
use crate::semver::lemma_sem_lt_asym;
use crate::semver::lemma_sem_lt_trans;
use crate::semver::lemma_sem_lt_total;
use crate::strutil::str_eq;
use crate::strutil::check_matches_at;
use crate::strutil::matches_at;

verus! {

// ---------------------------------------------------------------------------
// Where the semantic version starts inside a tag
// ---------------------------------------------------------------------------

/// A digit run starting at `q`, followed by one arbitrary character and
/// another digit: the tail of the version shape.
pub open spec fn digit_pair_at(s: Seq<char>, q: int) -> bool {
    exists|y: int|
        0 <= q && q + 1 <= y && y + 1 < s.len() && all_digits(#[trigger] s.subrange(q, y))
            && is_digit(s[y + 1])
}

/// The version shape begins at `p`: a digit run, one arbitrary
/// character, a digit run, one arbitrary character, and a digit.
pub open spec fn shape_at(s: Seq<char>, p: int) -> bool {
    exists|x: int|
        0 <= p && p < x < s.len() && all_digits(#[trigger] s.subrange(p, x)) && digit_pair_at(
            s,
            x + 1,
        )
}

/// The earliest position at or after `p` where the shape begins, or the
/// length of `s`.
pub open spec fn split_point_from(s: Seq<char>, p: int) -> int
    decreases s.len() - p,
{
    if p < 0 || p >= s.len() {
        s.len() as int
    } else if shape_at(s, p) {
        p
    } else {
        split_point_from(s, p + 1)
    }
}

/// Where the prefix of a tag ends and its version text starts.
pub open spec fn split_point(s: Seq<char>) -> int {
    split_point_from(s, 0)
}

pub proof fn lemma_split_point(s: Seq<char>)
    ensures
        0 <= split_point(s) <= s.len(),
        forall|i: int| 0 <= i < split_point(s) ==> !shape_at(s, i),
        split_point(s) < s.len() ==> shape_at(s, split_point(s)),
{
    lemma_split_point_from(s, 0);
}

proof fn lemma_split_point_from(s: Seq<char>, p: int)
    requires
        0 <= p <= s.len(),
    ensures
        p <= split_point_from(s, p) <= s.len(),
        forall|i: int| p <= i < split_point_from(s, p) ==> !shape_at(s, i),
        split_point_from(s, p) < s.len() ==> shape_at(s, split_point_from(s, p)),
    decreases s.len() - p,
{
    if p < s.len() && !shape_at(s, p) {
        lemma_split_point_from(s, p + 1);
    }
}

fn digit_exec(c: char) -> (r: bool)
    ensures
        r == is_digit(c),
{
    '0' <= c && c <= '9'
}

/// Decide `digit_pair_at`.
fn digit_pair_at_exec(s: &str, s_len: usize, q: usize) -> (r: bool)
    requires
        s_len == s@.len(),
    ensures
        r == digit_pair_at(s@, q as int),
{
    if q >= s_len || !digit_exec(s.get_char(q)) {
        proof {
            if digit_pair_at(s@, q as int) {
                let y = choose|y: int|
                    0 <= q && q + 1 <= y && y + 1 < s@.len() && all_digits(
                        #[trigger] s@.subrange(q as int, y),
                    ) && is_digit(s@[y + 1]);
                assert(s@.subrange(q as int, y)[0] == s@[q as int]);
            }
        }
        return false;
    }
    let mut y = q + 1;
    assert(all_digits(s@.subrange(q as int, q + 1))) by {
        assert(forall|i: int|
            0 <= i < 1 ==> is_digit(#[trigger] s@.subrange(q as int, q as int + 1)[i]));
    }
    loop
        invariant
            s_len == s@.len(),
            q + 1 <= y <= s_len,
            all_digits(s@.subrange(q as int, y as int)),
            forall|y2: int| q + 1 <= y2 < y ==> !(y2 + 1 < s@.len() && is_digit(#[trigger] s@[y2 + 1])),
        decreases s_len - y,
    {
        if s_len - y > 1 && digit_exec(s.get_char(y + 1)) {
            assert(digit_pair_at(s@, q as int));
            return true;
        }
        if y < s_len && digit_exec(s.get_char(y)) {
            assert(s@.subrange(q as int, y + 1) =~= s@.subrange(q as int, y as int).push(
                s@[y as int],
            ));
            y = y + 1;
        } else {
            proof {
                if digit_pair_at(s@, q as int) {
                    let w = choose|w: int|
                        0 <= q && q + 1 <= w && w + 1 < s@.len() && all_digits(
                            #[trigger] s@.subrange(q as int, w),
                        ) && is_digit(s@[w + 1]);
                    if w > y {
                        assert(y < s@.len());
                        assert(s@.subrange(q as int, w)[y - q] == s@[y as int]);
                    }
                }
            }
            return false;
        }
    }
}

/// Decide `shape_at`.
fn shape_at_exec(s: &str, s_len: usize, p: usize) -> (r: bool)
    requires
        s_len == s@.len(),
    ensures
        r == shape_at(s@, p as int),
{
    if p >= s_len || !digit_exec(s.get_char(p)) {
        proof {
            if shape_at(s@, p as int) {
                let x = choose|x: int|
                    0 <= p && p < x < s@.len() && all_digits(#[trigger] s@.subrange(p as int, x))
                        && digit_pair_at(s@, x + 1);
                assert(s@.subrange(p as int, x)[0] == s@[p as int]);
            }
        }
        return false;
    }
    let mut x = p + 1;
    assert(all_digits(s@.subrange(p as int, p + 1))) by {
        assert(forall|i: int|
            0 <= i < 1 ==> is_digit(#[trigger] s@.subrange(p as int, p as int + 1)[i]));
    }
    loop
        invariant
            s_len == s@.len(),
            p + 1 <= x <= s_len,
            all_digits(s@.subrange(p as int, x as int)),
            forall|x2: int| p < x2 < x ==> !#[trigger] digit_pair_at(s@, x2 + 1),
        decreases s_len - x,
    {
        if x < s_len && digit_pair_at_exec(s, s_len, x + 1) {
            assert(shape_at(s@, p as int));
            return true;
        }
        if x < s_len && digit_exec(s.get_char(x)) {
            assert(s@.subrange(p as int, x + 1) =~= s@.subrange(p as int, x as int).push(
                s@[x as int],
            ));
            x = x + 1;
        } else {
            proof {
                if shape_at(s@, p as int) {
                    let w = choose|w: int|
                        0 <= p && p < w < s@.len() && all_digits(
                            #[trigger] s@.subrange(p as int, w),
                        ) && digit_pair_at(s@, w + 1);
                    if w > x {
                        assert(x < s@.len());
                        assert(s@.subrange(p as int, w)[x - p] == s@[x as int]);
                    }
                }
            }
            return false;
        }
    }
}

/// Find the split point of a tag.
fn split_point_exec(s: &str, s_len: usize) -> (r: usize)
    requires
        s_len == s@.len(),
    ensures
        r == split_point(s@),
{
    proof {
        lemma_split_point(s@);
    }
    let mut p: usize = 0;
    while p < s_len
        invariant
            p <= s_len == s@.len(),
            forall|i: int| 0 <= i < p ==> !shape_at(s@, i),
            0 <= split_point(s@) <= s@.len(),
            forall|i: int| 0 <= i < split_point(s@) ==> !shape_at(s@, i),
            split_point(s@) < s@.len() ==> shape_at(s@, split_point(s@)),
        decreases s_len - p,
    {
        if shape_at_exec(s, s_len, p) {
            proof {
                let sp = split_point(s@);
                if sp < p {
                    assert(shape_at(s@, sp));
                } else if sp > p {
                    assert(!shape_at(s@, p as int));
                }
            }
            return p;
        }
        p = p + 1;
    }
    proof {
        if split_point(s@) < s@.len() {
            assert(!shape_at(s@, split_point(s@)));
        }
    }
    p
}

// ---------------------------------------------------------------------------
// A version tag
// ---------------------------------------------------------------------------

/// Whether a whole tag string parses: the shape is found somewhere, and
/// everything from the earliest shape onward is a valid semantic version.
pub open spec fn valid_tag(s: Seq<char>) -> bool {
    split_point(s) < s.len() && valid_semver(s.skip(split_point(s)))
}

/// The mathematical value of a parsed tag.
#[verifier::ext_equal]
pub ghost struct VersionView {
    pub prefix: Seq<char>,
    pub sem: SemVerView,
}

/// What a valid tag denotes.
pub open spec fn tag_version(s: Seq<char>) -> VersionView {
    VersionView { prefix: s.take(split_point(s)), sem: semver_of(s.skip(split_point(s))) }
}

/// A version tag: its naming prefix and its semantic version.
#[derive(Debug, PartialEq, Eq)]
pub struct Version {
    prefix: String,
    ver: SemVer,
}

impl View for Version {
    type V = VersionView;

    closed spec fn view(&self) -> VersionView {
        VersionView { prefix: self.prefix@, sem: self.ver@ }
    }
}

impl Version {
    /// All stored identifiers obey the grammar.
    pub open spec fn wf(&self) -> bool {
        wf_sem(self@.sem)
    }

    /// Parse a tag string: split off the prefix at the earliest version
    /// shape and read the remainder as a semantic version.
    pub fn parse(s: &str) -> (r: Result<Version, Error>)
        ensures
            match r {
                Ok(v) => valid_tag(s@) && v@ == tag_version(s@) && v.wf(),
                Err(e) => {
                    &&& !valid_tag(s@)
                    &&& e matches Error::NotASemanticVersion(t) && t@ == s@
                },
            },
    {
        let s_len = s.unicode_len();
        let p = split_point_exec(s, s_len);
        proof {
            lemma_split_point(s@);
        }
        if p == s_len {
            return Err(Error::NotASemanticVersion(s.to_owned()));
        }
        let rest = s.substring_char(p, s_len);
        proof {
            assert(rest@ =~= s@.skip(p as int));
        }
        match SemVer::parse(rest) {
            Some(ver) => {
                let prefix = s.substring_char(0, p).to_owned();
                proof {
                    assert(prefix@ =~= s@.take(p as int));
                }
                let v = Version { prefix, ver };
                proof {
                    assert(v@ =~= tag_version(s@));
                }
                Ok(v)
            },
            None => Err(Error::NotASemanticVersion(s.to_owned())),
        }
    }

    /// Whether this tag's prefix begins with `pre`.
    pub fn starts_with(&self, pre: &str) -> (r: bool)
        ensures
            r == pre@.is_prefix_of(self@.prefix),
    {
        let n = self.prefix.as_str().unicode_len();
        let m = pre.unicode_len();
        if m > n {
            return false;
        }
        let r = check_matches_at(self.prefix.as_str(), n, 0, pre);
        proof {
            if matches_at(self.prefix@, 0, pre@) {
                assert(pre@ =~= self.prefix@.subrange(0, pre@.len() as int));
            }
            if pre@.is_prefix_of(self.prefix@) {
                assert(self.prefix@.subrange(0, pre@.len() as int) =~= pre@);
            }
        }
        r
    }

    /// Whether this tag's prefix is exactly `pre`.
    pub fn has_prefix(&self, pre: &str) -> (r: bool)
        ensures
            r == (self@.prefix == pre@),
    {
        str_eq(self.prefix.as_str(), pre)
    }

    /// Whether `self` precedes `other` in semantic-version precedence;
    /// the prefix never participates.
    pub fn precedes(&self, other: &Version) -> (r: bool)
        requires
            self.wf(),
            other.wf(),
        ensures
            r == sem_lt(self@.sem, other@.sem),
    {
        self.ver.precedes(&other.ver)
    }

    /// The tag written back out: prefix followed by the version text.
    pub fn text(&self) -> (r: String)
        ensures
            r@ == self@.prefix + semver_text(self@.sem),
    {
        let mut r = self.prefix.clone();
        let t = self.ver.text();
        r.append(t.as_str());
        r
    }

    /// A value-equal copy.
    pub fn duplicate(&self) -> (r: Version)
        ensures
            r@ == self@,
    {
        let v = Version { prefix: self.prefix.clone(), ver: self.ver.duplicate() };
        proof {
            assert(v@ =~= self@);
        }
        v
    }
}

// ---------------------------------------------------------------------------
// The set of versions found in a repository
// ---------------------------------------------------------------------------

/// The distinct elements of `xs` in first-seen order.
pub open spec fn dedup_first_seen(xs: Seq<Seq<char>>) -> Seq<Seq<char>>
    decreases xs.len(),
{
    if xs.len() == 0 {
        Seq::empty()
    } else {
        let rest = dedup_first_seen(xs.drop_last());
        if rest.contains(xs.last()) {
            rest
        } else {
            rest.push(xs.last())
        }
    }
}

pub open spec fn prefixes_of(vs: Seq<VersionView>) -> Seq<Seq<char>> {
    vs.map_values(|v: VersionView| v.prefix)
}

pub open spec fn has_pref(vs: Seq<VersionView>, p: Seq<char>) -> bool {
    exists|i: int| 0 <= i < vs.len() && #[trigger] vs[i].prefix == p
}

/// What `select` keeps: an explicit prefix filters exactly; with none,
/// the empty prefix is preferred, then `v`, then everything stays.
pub open spec fn select_spec(vs: Seq<VersionView>, pref: Option<Seq<char>>) -> Seq<VersionView> {
    match pref {
        Some(p) => vs.filter(|v: VersionView| v.prefix == p),
        None => {
            if has_pref(vs, Seq::empty()) {
                vs.filter(|v: VersionView| v.prefix == Seq::<char>::empty())
            } else if has_pref(vs, seq!['v']) {
                vs.filter(|v: VersionView| v.prefix == seq!['v'])
            } else {
                vs
            }
        },
    }
}

/// The versions parsed out of a list of tag names, unparseable ones
/// dropped.
pub open spec fn parse_all(tags: Seq<Seq<char>>) -> Seq<VersionView>
    decreases tags.len(),
{
    if tags.len() == 0 {
        Seq::empty()
    } else {
        parse_all(tags.drop_last()) + (if valid_tag(tags.last()) {
            seq![tag_version(tags.last())]
        } else {
            Seq::empty()
        })
    }
}

/// No element of `vs` precedes the element at `k`.
pub open spec fn is_max_at(vs: Seq<VersionView>, k: int) -> bool {
    forall|i: int| 0 <= i < vs.len() ==> !sem_lt(vs[k].sem, #[trigger] vs[i].sem)
}

/// No element of `vs` other than the one at `k` precedes the element at `j`.
pub open spec fn is_max_except(vs: Seq<VersionView>, j: int, k: int) -> bool {
    forall|i: int| 0 <= i < vs.len() && i != k ==> !sem_lt(vs[j].sem, #[trigger] vs[i].sem)
}

/// The versions parsed from a repository's tags.
#[derive(Debug, PartialEq, Eq)]
pub struct Versions {
    vec: Vec<Version>,
}

impl View for Versions {
    type V = Seq<VersionView>;

    closed spec fn view(&self) -> Seq<VersionView> {
        self.vec@.map_values(|v: Version| v@)
    }
}

impl Versions {
    pub open spec fn wf(&self) -> bool {
        forall|i: int| 0 <= i < self@.len() ==> wf_sem(#[trigger] self@[i].sem)
    }

    pub fn new() -> (r: Versions)
        ensures
            r@ == Seq::<VersionView>::empty(),
            r.wf(),
    {
        let r = Versions { vec: Vec::new() };
        proof {
            assert(r@ =~= Seq::<VersionView>::empty());
        }
        r
    }

    pub fn from(vec: Vec<Version>) -> (r: Versions)
        ensures
            r@ == vec@.map_values(|v: Version| v@),
    {
        Versions { vec }
    }

    pub fn add(&mut self, v: Version)
        ensures
            final(self)@ == old(self)@.push(v@),
            old(self).wf() && wf_sem(v@.sem) ==> final(self).wf(),
    {
        self.vec.push(v);
        proof {
            assert(final(self)@ =~= old(self)@.push(v@));
        }
    }

    /// The newest and second-newest versions by precedence; ties may
    /// resolve to either of the equal elements.
    pub fn latest_range(&self) -> (r: (Option<Version>, Option<Version>))
        requires
            self.wf(),
        ensures
            r.0 is Some <==> self@.len() > 0,
            r.1 is Some <==> self@.len() > 1,
            match r {
                (Some(l), Some(p)) => exists|k: int, j: int|
                    #![auto]
                    0 <= k < self@.len() && 0 <= j < self@.len() && j != k && l@ == self@[k] && p@
                        == self@[j] && is_max_at(self@, k) && is_max_except(self@, j, k),
                (Some(l), None) => exists|k: int|
                    #![auto]
                    0 <= k < self@.len() && l@ == self@[k] && is_max_at(self@, k),
                _ => true,
            },
    {
        let ghost vs = self@;
        let n = self.vec.len();
        if n == 0 {
            return (None, None);
        }
        let mut k: usize = 0;
        proof {
            assert(wf_sem(vs[0].sem));
            if sem_lt(vs[0].sem, vs[0].sem) {
                lemma_sem_lt_asym(vs[0].sem, vs[0].sem);
            }
        }
        for i in it: 1..n
            invariant
                n == self.vec.len(),
                vs == self@,
                self.wf(),
                k < i <= n,
                forall|j: int| 0 <= j < i ==> !sem_lt(vs[k as int].sem, #[trigger] vs[j].sem),
        {
            assert(wf_sem(vs[k as int].sem));
            assert(wf_sem(vs[i as int].sem));
            if self.vec[k].ver.precedes(&self.vec[i].ver) {
                proof {
                    assert forall|j: int| 0 <= j < i + 1 implies !sem_lt(
                        vs[i as int].sem,
                        #[trigger] vs[j].sem,
                    ) by {
                        if sem_lt(vs[i as int].sem, vs[j].sem) {
                            assert(wf_sem(vs[j].sem));
                            if j < i {
                                lemma_sem_lt_trans(vs[k as int].sem, vs[i as int].sem, vs[j].sem);
                            } else {
                                lemma_sem_lt_asym(vs[i as int].sem, vs[j].sem);
                            }
                        }
                    }
                }
                k = i;
            }
        }
        let latest = self.vec[k].duplicate();
        if n == 1 {
            proof {
                assert(0 <= k < vs.len() && latest@ == vs[k as int] && is_max_at(vs, k as int));
            }
            return (Some(latest), None);
        }
        let mut j: usize = if k == 0 {
            1
        } else {
            0
        };
        for i in it: 0..n
            invariant
                n == self.vec.len(),
                vs == self@,
                self.wf(),
                k < n,
                j < n,
                j != k,
                forall|l: int|
                    0 <= l < i && l != k ==> !sem_lt(vs[j as int].sem, #[trigger] vs[l].sem),
        {
            if i != k {
                assert(wf_sem(vs[j as int].sem));
                assert(wf_sem(vs[i as int].sem));
                if self.vec[j].ver.precedes(&self.vec[i].ver) {
                    proof {
                        assert forall|l: int| 0 <= l < i + 1 && l != k implies !sem_lt(
                            vs[i as int].sem,
                            #[trigger] vs[l].sem,
                        ) by {
                            if sem_lt(vs[i as int].sem, vs[l].sem) {
                                assert(wf_sem(vs[l].sem));
                                if l < i {
                                    lemma_sem_lt_trans(
                                        vs[j as int].sem,
                                        vs[i as int].sem,
                                        vs[l].sem,
                                    );
                                } else {
                                    lemma_sem_lt_asym(vs[i as int].sem, vs[l].sem);
                                }
                            }
                        }
                    }
                    j = i;
                }
            }
        }
        let previous = self.vec[j].duplicate();
        proof {
            let ki = k as int;
            let ji = j as int;
            assert(0 <= ki < vs.len() && 0 <= ji < vs.len() && ji != ki && latest@ == vs[ki]
                && previous@ == vs[ji] && is_max_at(vs, ki) && is_max_except(vs, ji, ki));
        }
        (Some(latest), Some(previous))
    }

    /// The distinct prefixes present, in first-seen order.
    pub fn prefix(&self) -> (r: Vec<String>)
        ensures
            r@.map_values(|t: String| t@) == dedup_first_seen(prefixes_of(self@)),
    {
        let ghost ps = prefixes_of(self@);
        let mut out: Vec<String> = Vec::new();
        let n = self.vec.len();
        assert(out@.map_values(|t: String| t@) =~= dedup_first_seen(ps.take(0)));
        for i in it: 0..n
            invariant
                n == self.vec.len(),
                ps == prefixes_of(self@),
                out@.map_values(|t: String| t@) =~= dedup_first_seen(ps.take(i as int)),
        {
            proof {
                assert(ps.take(i + 1).drop_last() =~= ps.take(i as int));
                assert(ps.take(i + 1).last() == ps[i as int]);
            }
            let mut seen = false;
            let m = out.len();
            for u in it2: 0..m
                invariant
                    m == out.len(),
                    n == self.vec.len(),
                    ps == prefixes_of(self@),
                    i < n,
                    out@.map_values(|t: String| t@) =~= dedup_first_seen(ps.take(i as int)),
                    seen ==> dedup_first_seen(ps.take(i as int)).contains(ps[i as int]),
                    !seen ==> forall|w: int|
                        0 <= w < u ==> #[trigger] dedup_first_seen(ps.take(i as int))[w] != ps[i as int],
            {
                if !seen && str_eq(out[u].as_str(), self.vec[i].prefix.as_str()) {
                    proof {
                        assert(out@.map_values(|t: String| t@)[u as int] == ps[i as int]);
                    }
                    seen = true;
                }
            }
            if !seen {
                proof {
                    if dedup_first_seen(ps.take(i as int)).contains(ps[i as int]) {
                        let w = choose|w: int|
                            0 <= w < dedup_first_seen(ps.take(i as int)).len() && dedup_first_seen(
                                ps.take(i as int),
                            )[w] == ps[i as int];
                        assert(out@.map_values(|t: String| t@)[w] == ps[i as int]);
                    }
                }
                out.push(self.vec[i].prefix.clone());
                assert(out@.map_values(|t: String| t@) =~= dedup_first_seen(ps.take(i + 1)));
            } else {
                assert(out@.map_values(|t: String| t@) =~= dedup_first_seen(ps.take(i + 1)));
            }
        }
        assert(ps.take(n as int) =~= ps);
        out
    }

    /// Keep only the versions whose prefix is exactly `pre`.
    fn filter_prefix(self, pre: &str) -> (r: Versions)
        ensures
            r@ == self@.filter(|v: VersionView| v.prefix == pre@),
            self.wf() ==> r.wf(),
    {
        let ghost vs = self@;
        let ghost pred = |v: VersionView| v.prefix == pre@;
        let mut out: Vec<Version> = Vec::new();
        let n = self.vec.len();
        assert(out@.map_values(|v: Version| v@) =~= vs.take(0).filter(pred));
        let mut i: usize = 0;
        while i < n
            invariant
                n == self.vec.len(),
                vs == self@,
                i <= n,
                out@.map_values(|v: Version| v@) =~= vs.take(i as int).filter(pred),
                pred == (|v: VersionView| v.prefix == pre@),
                self.wf() ==> forall|w: int|
                    0 <= w < out@.len() ==> wf_sem((#[trigger] out@[w])@.sem),
            decreases n - i,
        {
            proof {
                assert(vs.take(i + 1).drop_last() =~= vs.take(i as int));
                assert(vs.take(i + 1).last() == vs[i as int]);
                reveal(Seq::filter);
            }
            if self.vec[i].has_prefix(pre) {
                out.push(self.vec[i].duplicate());
                assert(out@.map_values(|v: Version| v@) =~= vs.take(i + 1).filter(pred));
            } else {
                assert(out@.map_values(|v: Version| v@) =~= vs.take(i + 1).filter(pred));
            }
            i = i + 1;
        }
        assert(vs.take(n as int) =~= vs);
        let r = Versions { vec: out };
        r
    }

    /// Whether some version carries exactly the prefix `pre`.
    fn some_prefix(&self, pre: &str) -> (r: bool)
        ensures
            r == has_pref(self@, pre@),
    {
        let n = self.vec.len();
        for i in it: 0..n
            invariant
                n == self.vec.len(),
                forall|j: int| 0 <= j < i ==> #[trigger] self@[j].prefix != pre@,
        {
            if self.vec[i].has_prefix(pre) {
                assert(self@[i as int].prefix == pre@);
                return true;
            }
        }
        false
    }

    /// Choose the working set of versions: an explicit prefix filters
    /// exactly; otherwise the empty prefix is preferred, then `v`, and
    /// failing both everything is kept.
    pub fn select(self, prefix: Option<&str>) -> (r: Versions)
        ensures
            r@ == select_spec(self@, match prefix {
                Some(p) => Some(p@),
                None => None,
            }),
            self.wf() ==> r.wf(),
    {
        if let Some(pre) = prefix {
            return self.filter_prefix(pre);
        }
        proof {
            reveal_strlit("");
            reveal_strlit("v");
            assert(""@ =~= Seq::<char>::empty());
            assert("v"@ =~= seq!['v']);
        }
        if self.some_prefix("") {
            return self.filter_prefix("");
        }
        if self.some_prefix("v") {
            return self.filter_prefix("v");
        }
        self
    }

    /// Parse every tag name, keep the selected prefix scheme, and fail
    /// if more than one distinct prefix remains.
    pub fn resolve(tags: &Vec<String>, tag_prefix: Option<&str>) -> (r: Result<Versions, Error>)
        ensures
            ({
                let parsed = parse_all(tags@.map_values(|t: String| t@));
                let sel = select_spec(parsed, match tag_prefix {
                    Some(p) => Some(p@),
                    None => None,
                });
                let prefs = dedup_first_seen(prefixes_of(sel));
                match r {
                    Ok(vs) => vs@ == sel && prefs.len() <= 1 && vs.wf(),
                    Err(e) => {
                        &&& prefs.len() > 1
                        &&& e matches Error::AmbiguousVersionScheme(p) && p@ == prefs[0]
                    },
                }
            }),
    {
        let ghost tv = tags@.map_values(|t: String| t@);
        let mut collected = Versions::new();
        let n = tags.len();
        assert(collected@ =~= parse_all(tv.take(0)));
        for i in it: 0..n
            invariant
                n == tags@.len(),
                tv == tags@.map_values(|t: String| t@),
                collected@ =~= parse_all(tv.take(i as int)),
                collected.wf(),
        {
            proof {
                assert(tv.take(i + 1).drop_last() =~= tv.take(i as int));
                assert(tv.take(i + 1).last() == tv[i as int]);
            }
            match Version::parse(tags[i].as_str()) {
                Ok(v) => {
                    collected.add(v);
                    assert(collected@ =~= parse_all(tv.take(i + 1)));
                },
                Err(_) => {
                    assert(collected@ =~= parse_all(tv.take(i + 1)));
                },
            }
        }
        assert(tv.take(n as int) =~= tv);
        let selected = collected.select(tag_prefix);
        let prefs = selected.prefix();
        if prefs.len() > 1 {
            let offending = prefs[0].clone();
            proof {
                assert(prefs@.map_values(|t: String| t@)[0] == offending@);
            }
            return Err(Error::AmbiguousVersionScheme(offending));
        }
        Ok(selected)
    }
}

// ---------------------------------------------------------------------------
// Laws of the order on parsed versions
// ---------------------------------------------------------------------------

/// A valid tag always denotes a well-formed semantic version.
pub proof fn lemma_valid_tag_wf(s: Seq<char>)
    requires
        valid_tag(s),
    ensures
        wf_sem(tag_version(s).sem),
{
    let rest = s.skip(split_point(s));
    assert(valid_semver(rest));
    lemma_semver_of_wf(rest);
}

/// Law: comparing two versions parsed from tags that share a prefix
/// follows standard semantic-version precedence of their version texts,
/// and that precedence is a strict total order up to build metadata:
/// asymmetric, transitive, and total on the numeric triple and the
/// pre-release list.
pub proof fn lemma_version_order(s1: Seq<char>, s2: Seq<char>, s3: Seq<char>)
    requires
        valid_tag(s1),
        valid_tag(s2),
        valid_tag(s3),
        tag_version(s1).prefix == tag_version(s2).prefix,
    ensures
        sem_lt(tag_version(s1).sem, tag_version(s2).sem) ==> !sem_lt(
            tag_version(s2).sem,
            tag_version(s1).sem,
        ),
        sem_lt(tag_version(s1).sem, tag_version(s2).sem) && sem_lt(
            tag_version(s2).sem,
            tag_version(s3).sem,
        ) ==> sem_lt(tag_version(s1).sem, tag_version(s3).sem),
        !sem_lt(tag_version(s1).sem, tag_version(s2).sem) && !sem_lt(
            tag_version(s2).sem,
            tag_version(s1).sem,
        ) ==> tag_version(s1).sem.major == tag_version(s2).sem.major && tag_version(s1).sem.minor
            == tag_version(s2).sem.minor && tag_version(s1).sem.patch == tag_version(s2).sem.patch
            && tag_version(s1).sem.pre == tag_version(s2).sem.pre,
{
    lemma_valid_tag_wf(s1);
    lemma_valid_tag_wf(s2);
    lemma_valid_tag_wf(s3);
    if sem_lt(tag_version(s1).sem, tag_version(s2).sem) {
        lemma_sem_lt_asym(tag_version(s1).sem, tag_version(s2).sem);
        if sem_lt(tag_version(s2).sem, tag_version(s3).sem) {
            lemma_sem_lt_trans(tag_version(s1).sem, tag_version(s2).sem, tag_version(s3).sem);
        }
    }
    if !sem_lt(tag_version(s1).sem, tag_version(s2).sem) && !sem_lt(
        tag_version(s2).sem,
        tag_version(s1).sem,
    ) {
        lemma_sem_lt_total(tag_version(s1).sem, tag_version(s2).sem);
    }
}

} // verus!
