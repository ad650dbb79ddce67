//! Commit records, their authors, the tag or hash a commit can be
//! named by, and the partitioning of an ordered history into release
//! buckets grouped by change kind.

use vstd::prelude::*;
use vstd::string::*;
use vstd::seq_lib::*;

use crate::Error;
use crate::conventional_commit::CommitType;
use crate::conventional_commit::CommitTypeView;
use crate::conventional_commit::ConventionalCommits;
use crate::conventional_commit::ConventionalView;
use crate::conventional_commit::rank;
use crate::version::Version;
use crate::version::VersionView;
use crate::strutil::last_at;
use crate::strutil::lemma_last_at;
use crate::strutil::find_last_char;

verus! {

// ---------------------------------------------------------------------------
// Authors
// ---------------------------------------------------------------------------

#[verifier::ext_equal]
pub ghost struct AuthorView {
    pub name: Option<Seq<char>>,
    pub email: Option<Seq<char>>,
}

/// The email text with one leading `<` and one trailing `>` removed.
pub open spec fn strip_angles(t: Seq<char>) -> Seq<char> {
    let t1 = if t.len() > 0 && t[0] == '<' {
        t.skip(1)
    } else {
        t
    };
    if t1.len() > 0 && t1.last() == '>' {
        t1.drop_last()
    } else {
        t1
    }
}

/// How a signature line divides: the text before its last space is the
/// name, the remainder the email; a line without such a split yields an
/// anonymous author.
pub open spec fn author_spec(s: Seq<char>) -> AuthorView {
    let k = last_at(s, ' ');
    if k <= 0 {
        AuthorView { name: None, email: None }
    } else {
        AuthorView { name: Some(s.take(k)), email: Some(strip_angles(s.skip(k + 1))) }
    }
}

pub open spec fn unknown_name() -> Seq<char> {
    seq!['U', 'n', 'k', 'n', 'o', 'w', 'n']
}

/// The name shown for an author.
pub open spec fn display_name(a: AuthorView) -> Seq<char> {
    match a.name {
        Some(n) => n,
        None => unknown_name(),
    }
}

/// A commit's author: a display name and an optional email address.
#[derive(Debug, PartialEq, Eq, Hash)]
pub struct Author {
    name: Option<String>,
    email: Option<String>,
}

impl View for Author {
    type V = AuthorView;

    closed spec fn view(&self) -> AuthorView {
        AuthorView {
            name: match self.name {
                Some(ref n) => Some(n@),
                None => None,
            },
            email: match self.email {
                Some(ref e) => Some(e@),
                None => None,
            },
        }
    }
}

impl Author {
    /// Parse a `Name <email>` signature line; without a name-email
    /// split the author stays anonymous.
    pub fn parse(s: &str) -> (r: Author)
        ensures
            r@ == author_spec(s@),
    {
        let s_len = s.unicode_len();
        proof {
            lemma_last_at(s@, ' ');
        }
        match crate::strutil::find_last_char(s, s_len, ' ') {
            Some(k) if k > 0 => {
                let name = s.substring_char(0, k).to_owned();
                let tail = s.substring_char(k + 1, s_len);
                proof {
                    assert(tail@ =~= s@.skip(k + 1));
                }
                let t_len = tail.unicode_len();
                let start: usize = if t_len > 0 && tail.get_char(0) == '<' {
                    1
                } else {
                    0
                };
                let end: usize = if t_len > start && tail.get_char(t_len - 1) == '>' {
                    t_len - 1
                } else {
                    t_len
                };
                let email = tail.substring_char(start, end).to_owned();
                proof {
                    assert(email@ =~= strip_angles(tail@));
                }
                let r = Author { name: Some(name), email: Some(email) };
                proof {
                    assert(r@ =~= author_spec(s@));
                }
                r
            },
            _ => {
                let r = Author { name: None, email: None };
                proof {
                    assert(r@ =~= author_spec(s@));
                }
                r
            },
        }
    }

    /// Build an author from already-separated parts.
    pub fn from_parts(name: Option<String>, email: Option<String>) -> (r: Author)
        ensures
            r@.name == (match name {
                Some(n) => Some(n@),
                None => None::<Seq<char>>,
            }),
            r@.email == (match email {
                Some(e) => Some(e@),
                None => None::<Seq<char>>,
            }),
    {
        Author { name, email }
    }

    /// The display name, or a fixed placeholder for an anonymous author.
    pub fn name(&self) -> (r: &str)
        ensures
            r@ == display_name(self@),
    {
        proof {
            reveal_strlit("Unknown");
            assert("Unknown"@ =~= unknown_name());
        }
        match &self.name {
            Some(n) => n.as_str(),
            None => "Unknown",
        }
    }

    /// The email address, if one was recorded.
    pub fn email(&self) -> (r: Option<&str>)
        ensures
            match r {
                Some(e) => self@.email == Some(e@),
                None => self@.email is None,
            },
    {
        match &self.email {
            Some(e) => Some(e.as_str()),
            None => None,
        }
    }

    /// A value-equal copy.
    pub fn duplicate(&self) -> (r: Author)
        ensures
            r@ == self@,
    {
        let r = Author {
            name: match &self.name {
                Some(n) => Some(n.clone()),
                None => None,
            },
            email: match &self.email {
                Some(e) => Some(e.clone()),
                None => None,
            },
        };
        proof {
            assert(r@ =~= self@);
        }
        r
    }
}

// ---------------------------------------------------------------------------
// What a release boundary is named by
// ---------------------------------------------------------------------------

#[verifier::ext_equal]
pub ghost enum NamableView {
    Commit { short_hash: Seq<char>, datetime: int },
    Tag { version: VersionView, datetime: int },
}

/// A point in history that a heading can name: a plain commit by its
/// short hash, or a tagged commit by its version. Times are seconds
/// since the Unix epoch.
#[derive(Debug)]
pub enum NamableObj {
    Commit { short_hash: String, datetime: i64 },
    Tag { version: Version, datetime: i64 },
}

impl View for NamableObj {
    type V = NamableView;

    open spec fn view(&self) -> NamableView {
        match self {
            NamableObj::Commit { short_hash, datetime } => NamableView::Commit {
                short_hash: short_hash@,
                datetime: *datetime as int,
            },
            NamableObj::Tag { version, datetime } => NamableView::Tag {
                version: version@,
                datetime: *datetime as int,
            },
        }
    }
}

/// The heading text of a named point: the short hash, or the tag
/// written back out.
pub open spec fn namable_name(n: NamableView) -> Seq<char> {
    match n {
        NamableView::Commit { short_hash, .. } => short_hash,
        NamableView::Tag { version, .. } => version.prefix + crate::semver::semver_text(
            version.sem,
        ),
    }
}

pub open spec fn namable_time(n: NamableView) -> int {
    match n {
        NamableView::Commit { datetime, .. } => datetime,
        NamableView::Tag { datetime, .. } => datetime,
    }
}

/// What formatting a timestamp as a `year-month-day` date yields; it
/// depends on the timestamp alone.
pub uninterp spec fn date_label(seconds: int) -> Seq<char>;

/// Relies on `chrono::DateTime::format` with `%Y-%m-%d` over a UTC time
/// built from the timestamp: the text is a pure function of the
/// timestamp.
#[verifier::external_body]
fn format_date(seconds: i64) -> (r: String)
    ensures
        r@ == date_label(seconds as int),
{
    match chrono::DateTime::<chrono::Utc>::from_timestamp(seconds, 0) {
        Some(dt) => dt.format("%Y-%m-%d").to_string(),
        None => String::new(),
    }
}

/// Relies on `chrono::Utc::now` for the current time; nothing is
/// promised of the value.
#[verifier::external_body]
fn now_seconds() -> i64 {
    chrono::Utc::now().timestamp()
}

impl NamableObj {
    /// A tag boundary parsed from a tag name.
    pub fn new(name: &str, datetime: i64) -> (r: Result<NamableObj, Error>)
        ensures
            match r {
                Ok(n) => crate::version::valid_tag(name@) && n@ == (NamableView::Tag {
                    version: crate::version::tag_version(name@),
                    datetime: datetime as int,
                }),
                Err(e) => {
                    &&& !crate::version::valid_tag(name@)
                    &&& e matches Error::NotASemanticVersion(t) && t@ == name@
                },
            },
    {
        match Version::parse(name) {
            Ok(version) => Ok(NamableObj::Tag { version, datetime }),
            Err(e) => Err(e),
        }
    }

    /// The text a heading shows for this point.
    pub fn name(&self) -> (r: String)
        ensures
            r@ == namable_name(self@),
    {
        match self {
            NamableObj::Commit { short_hash, .. } => short_hash.clone(),
            NamableObj::Tag { version, .. } => version.text(),
        }
    }

    /// The date a heading shows for this point.
    pub fn date(&self) -> (r: String)
        ensures
            r@ == date_label(namable_time(self@)),
    {
        match self {
            NamableObj::Commit { datetime, .. } => format_date(*datetime),
            NamableObj::Tag { datetime, .. } => format_date(*datetime),
        }
    }

    /// A value-equal copy.
    pub fn duplicate(&self) -> (r: NamableObj)
        ensures
            r@ == self@,
    {
        match self {
            NamableObj::Commit { short_hash, datetime } => NamableObj::Commit {
                short_hash: short_hash.clone(),
                datetime: *datetime,
            },
            NamableObj::Tag { version, datetime } => NamableObj::Tag {
                version: version.duplicate(),
                datetime: *datetime,
            },
        }
    }
}

// ---------------------------------------------------------------------------
// A commit record
// ---------------------------------------------------------------------------

#[verifier::ext_equal]
pub ghost struct CommitView {
    pub id: Seq<char>,
    pub summary: Seq<char>,
    pub author: AuthorView,
    pub datetime: int,
    pub parent_count: int,
    pub cc: Option<ConventionalView>,
    pub obj: Option<NamableView>,
}

/// The hash of the empty tree, standing in for the root of history.
pub open spec fn empty_tree_hash() -> Seq<char> {
    "4b825dc642cb6eb9a060e54bf8d69288fbee4904"@
}

/// The kind a commit is grouped under: its classified kind, or the
/// catch-all where classification failed.
pub open spec fn commit_type_of(c: CommitView) -> CommitTypeView {
    match c.cc {
        Some(cc) => cc.ctype,
        None => CommitTypeView::Others,
    }
}

/// The line of text shown for a commit: its classified description, or
/// the raw summary.
pub open spec fn message_of(c: CommitView) -> Seq<char> {
    match c.cc {
        Some(cc) => cc.description,
        None => c.summary,
    }
}

/// The first seven characters of a hash.
pub open spec fn short_of(h: Seq<char>) -> Seq<char> {
    h.take(if h.len() < 7 {
        h.len() as int
    } else {
        7
    })
}

/// The tag naming this commit, kept only when its version prefix
/// begins with the wanted prefix.
pub open spec fn effective_tag(c: CommitView, pre: Option<Seq<char>>) -> Option<NamableView> {
    match c.obj {
        Some(NamableView::Tag { version, datetime }) => match pre {
            Some(p) => if p.is_prefix_of(version.prefix) {
                c.obj
            } else {
                None
            },
            None => c.obj,
        },
        _ => None,
    }
}

/// One commit of the walked history. The time is seconds since the
/// Unix epoch.
#[derive(Debug)]
pub struct Commit {
    pub id: String,
    summary: String,
    author: Author,
    datetime: i64,
    parent_count: usize,
    cc: Option<ConventionalCommits>,
    obj: Option<NamableObj>,
}

impl View for Commit {
    type V = CommitView;

    closed spec fn view(&self) -> CommitView {
        CommitView {
            id: self.id@,
            summary: self.summary@,
            author: self.author@,
            datetime: self.datetime as int,
            parent_count: self.parent_count as int,
            cc: match self.cc {
                Some(ref cc) => Some(cc@),
                None => None,
            },
            obj: match self.obj {
                Some(ref o) => Some(o@),
                None => None,
            },
        }
    }
}

impl Commit {
    /// Assemble a commit record; the author line is parsed here.
    pub fn new(
        id: String,
        summary: &str,
        author: &str,
        datetime: i64,
        parent_count: usize,
        cc: Option<ConventionalCommits>,
        obj: Option<NamableObj>,
    ) -> (r: Commit)
        ensures
            r@.id == id@,
            r@.summary == summary@,
            r@.author == author_spec(author@),
            r@.datetime == datetime as int,
            r@.parent_count == parent_count as int,
            r@.cc == (match cc {
                Some(c) => Some(c@),
                None => None::<ConventionalView>,
            }),
            r@.obj == (match obj {
                Some(o) => Some(o@),
                None => None::<NamableView>,
            }),
    {
        Commit {
            id,
            summary: String::from_str(summary),
            author: Author::parse(author),
            datetime,
            parent_count,
            cc,
            obj,
        }
    }

    /// The empty-tree placeholder commit used as the boundary of a
    /// history that has no older tag; its time is the clock's, of which
    /// nothing is promised.
    pub fn empty() -> (r: Commit)
        ensures
            r@.id == empty_tree_hash(),
            r@.summary.len() == 0,
            r@.parent_count == 1,
            r@.cc is None,
            r@.obj is None,
    {
        proof {
            reveal_strlit("4b825dc642cb6eb9a060e54bf8d69288fbee4904");
        }
        Commit {
            id: String::from_str("4b825dc642cb6eb9a060e54bf8d69288fbee4904"),
            summary: String::new(),
            author: Author::from_parts(None, None),
            datetime: now_seconds(),
            parent_count: 1,
            cc: None,
            obj: None,
        }
    }

    /// The first seven characters of the hash.
    pub fn short_hash(&self) -> (r: String)
        ensures
            r@ == short_of(self@.id),
    {
        let n = self.id.as_str().unicode_len();
        let k = if n < 7 {
            n
        } else {
            7
        };
        self.id.as_str().substring_char(0, k).to_owned()
    }

    /// The full hash.
    pub fn hash(&self) -> (r: String)
        ensures
            r@ == self@.id,
    {
        self.id.clone()
    }

    /// The kind this commit is grouped under.
    pub fn raw_type(&self) -> (r: CommitType)
        ensures
            r@ == commit_type_of(self@),
    {
        match &self.cc {
            Some(cc) => cc.raw_type(),
            None => CommitType::Others,
        }
    }

    /// The line of text shown for this commit.
    pub fn message(&self) -> (r: String)
        ensures
            r@ == message_of(self@),
    {
        match &self.cc {
            Some(cc) => cc.description_str().to_owned(),
            None => self.summary.clone(),
        }
    }

    pub fn author(&self) -> (r: &Author)
        ensures
            r@ == self@.author,
    {
        &self.author
    }

    pub fn parent_count(&self) -> (r: usize)
        ensures
            r as int == self@.parent_count,
    {
        self.parent_count
    }

    /// The tag naming this commit under the wanted prefix, if any.
    pub fn name_obj(&self, prefix: Option<&str>) -> (r: Option<&NamableObj>)
        ensures
            match r {
                Some(o) => effective_tag(self@, match prefix {
                    Some(p) => Some(p@),
                    None => None,
                }) == Some(o@),
                None => effective_tag(self@, match prefix {
                    Some(p) => Some(p@),
                    None => None,
                }) is None,
            },
    {
        match &self.obj {
            Some(o) => match o {
                NamableObj::Tag { version, .. } => match prefix {
                    Some(p) => if version.starts_with(p) {
                        Some(o)
                    } else {
                        None
                    },
                    None => Some(o),
                },
                _ => None,
            },
            None => None,
        }
    }

    /// A value-equal copy.
    pub fn duplicate(&self) -> (r: Commit)
        ensures
            r@ == self@,
    {
        let r = Commit {
            id: self.id.clone(),
            summary: self.summary.clone(),
            author: self.author.duplicate(),
            datetime: self.datetime,
            parent_count: self.parent_count,
            cc: match &self.cc {
                Some(cc) => Some(cc.duplicate()),
                None => None,
            },
            obj: match &self.obj {
                Some(o) => Some(o.duplicate()),
                None => None,
            },
        };
        proof {
            assert(r@ =~= self@);
        }
        r
    }
}

// ---------------------------------------------------------------------------
// Release ranges
// ---------------------------------------------------------------------------

#[verifier::ext_equal]
pub ghost enum RangeView {
    Release(NamableView, NamableView),
    UnRelease(NamableView),
}

/// The span a bucket covers: between two named points, or from a named
/// point to the unreleased head.
#[derive(Debug)]
pub enum ReleaseRange {
    Release(NamableObj, NamableObj),
    UnRelease(NamableObj),
}

impl View for ReleaseRange {
    type V = RangeView;

    open spec fn view(&self) -> RangeView {
        match self {
            ReleaseRange::Release(a, b) => RangeView::Release(a@, b@),
            ReleaseRange::UnRelease(a) => RangeView::UnRelease(a@),
        }
    }
}

impl ReleaseRange {
    /// A value-equal copy.
    pub fn duplicate(&self) -> (r: ReleaseRange)
        ensures
            r@ == self@,
    {
        match self {
            ReleaseRange::Release(a, b) => ReleaseRange::Release(a.duplicate(), b.duplicate()),
            ReleaseRange::UnRelease(a) => ReleaseRange::UnRelease(a.duplicate()),
        }
    }
}

// ---------------------------------------------------------------------------
// Grouping one bucket's commits by kind
// ---------------------------------------------------------------------------

pub open spec fn commits_view(v: Seq<Commit>) -> Seq<CommitView> {
    v.map_values(|c: Commit| c@)
}

/// The commits of one kind, in their original order.
pub open spec fn commits_of_type(cs: Seq<CommitView>, t: CommitTypeView) -> Seq<CommitView> {
    cs.filter(|c: CommitView| commit_type_of(c) == t)
}

/// The distinct custom kind names, in first-seen order.
pub open spec fn custom_names(cs: Seq<CommitView>) -> Seq<Seq<char>>
    decreases cs.len(),
{
    if cs.len() == 0 {
        Seq::empty()
    } else {
        let rest = custom_names(cs.drop_last());
        match commit_type_of(cs.last()) {
            CommitTypeView::Custom(nm) => if rest.contains(nm) {
                rest
            } else {
                rest.push(nm)
            },
            _ => rest,
        }
    }
}

proof fn lemma_custom_names_elems(cs: Seq<CommitView>, nm: Seq<char>)
    ensures
        custom_names(cs).contains(nm) <==> exists|j: int|
            0 <= j < cs.len() && commit_type_of(#[trigger] cs[j]) == CommitTypeView::Custom(nm),
    decreases cs.len(),
{
    if cs.len() > 0 {
        lemma_custom_names_elems(cs.drop_last(), nm);
        if custom_names(cs).contains(nm) {
            if custom_names(cs.drop_last()).contains(nm) {
                let j = choose|j: int|
                    0 <= j < cs.drop_last().len() && commit_type_of(#[trigger] cs.drop_last()[j])
                        == CommitTypeView::Custom(nm);
                assert(commit_type_of(cs[j]) == CommitTypeView::Custom(nm));
            } else {
                assert(commit_type_of(cs[cs.len() - 1]) == CommitTypeView::Custom(nm));
            }
        }
        if exists|j: int|
            0 <= j < cs.len() && commit_type_of(#[trigger] cs[j]) == CommitTypeView::Custom(nm) {
            let j = choose|j: int|
                0 <= j < cs.len() && commit_type_of(#[trigger] cs[j]) == CommitTypeView::Custom(nm);
            if j < cs.len() - 1 {
                assert(commit_type_of(cs.drop_last()[j]) == CommitTypeView::Custom(nm));
                assert(custom_names(cs.drop_last()).contains(nm));
                let w = choose|w: int|
                    0 <= w < custom_names(cs.drop_last()).len() && custom_names(cs.drop_last())[w]
                        == nm;
                if !custom_names(cs).contains(nm) {
                    assert(custom_names(cs)[w] == nm);
                }
            } else {
                if !custom_names(cs.drop_last()).contains(nm) {
                    assert(custom_names(cs).last() == nm);
                } else {
                    let w = choose|w: int|
                        0 <= w < custom_names(cs.drop_last()).len() && custom_names(
                            cs.drop_last(),
                        )[w] == nm;
                    if !custom_names(cs).contains(nm) {
                        assert(custom_names(cs)[w] == nm);
                    }
                }
            }
        }
    }
}

/// The canonical kinds in display order.
pub open spec fn canonical_kinds() -> Seq<CommitTypeView> {
    seq![
        CommitTypeView::Feat,
        CommitTypeView::Fix,
        CommitTypeView::Build,
        CommitTypeView::Doc,
        CommitTypeView::Chore,
        CommitTypeView::Ci,
        CommitTypeView::Style,
        CommitTypeView::Refactor,
        CommitTypeView::Perf,
        CommitTypeView::Test,
        CommitTypeView::Revert,
        CommitTypeView::Security,
    ]
}

/// The kinds a bucket shows, in display order: canonical kinds that
/// occur, then custom kinds in first-seen order, then the catch-all.
pub open spec fn group_kinds(cs: Seq<CommitView>) -> Seq<CommitTypeView> {
    canon_kinds_upto(cs, canonical_kinds().len() as int) + custom_kinds_of(custom_names(cs)) + (
    if commits_of_type(cs, CommitTypeView::Others).len() > 0 {
        seq![CommitTypeView::Others]
    } else {
        Seq::empty()
    })
}

/// A bucket's commits grouped by kind, the kinds in display order and
/// each group in original order.
pub open spec fn grouped_spec(cs: Seq<CommitView>) -> Seq<(CommitTypeView, Seq<CommitView>)> {
    pairs_of(cs, group_kinds(cs))
}

pub open spec fn pair_of(cs: Seq<CommitView>, t: CommitTypeView) -> (CommitTypeView, Seq<CommitView>) {
    (t, commits_of_type(cs, t))
}

pub open spec fn pairs_of(cs: Seq<CommitView>, ks: Seq<CommitTypeView>) -> Seq<
    (CommitTypeView, Seq<CommitView>),
> {
    ks.map_values(|t: CommitTypeView| pair_of(cs, t))
}

/// The canonical kinds that occur among the first `i` canonical kinds.
pub open spec fn canon_kinds_upto(cs: Seq<CommitView>, i: int) -> Seq<CommitTypeView> {
    canonical_kinds().take(i).filter(|t: CommitTypeView| commits_of_type(cs, t).len() > 0)
}

pub open spec fn custom_kinds_of(names: Seq<Seq<char>>) -> Seq<CommitTypeView> {
    names.map_values(|n: Seq<char>| CommitTypeView::Custom(n))
}

pub open spec fn grouped_view(g: Seq<(CommitType, Vec<Commit>)>) -> Seq<
    (CommitTypeView, Seq<CommitView>),
> {
    g.map_values(|p: (CommitType, Vec<Commit>)| (p.0@, commits_view(p.1@)))
}

proof fn lemma_canon_step(cs: Seq<CommitView>, i: int)
    requires
        0 <= i < canonical_kinds().len(),
    ensures
        commits_of_type(cs, canonical_kinds()[i]).len() > 0 ==> canon_kinds_upto(cs, i + 1)
            == canon_kinds_upto(cs, i).push(canonical_kinds()[i]),
        commits_of_type(cs, canonical_kinds()[i]).len() == 0 ==> canon_kinds_upto(cs, i + 1)
            == canon_kinds_upto(cs, i),
{
    reveal(Seq::filter);
    assert(canonical_kinds().take(i + 1).drop_last() =~= canonical_kinds().take(i));
    assert(canonical_kinds().take(i + 1).last() == canonical_kinds()[i]);
}

proof fn lemma_pairs_push(cs: Seq<CommitView>, ks: Seq<CommitTypeView>, k: CommitTypeView)
    ensures
        pairs_of(cs, ks.push(k)) == pairs_of(cs, ks).push(pair_of(cs, k)),
{
    assert(pairs_of(cs, ks.push(k)) =~= pairs_of(cs, ks).push(pair_of(cs, k)));
}

/// Collect the commits of one kind, in order.
fn collect_type(vec: &Vec<Commit>, t: &CommitType) -> (r: Vec<Commit>)
    ensures
        commits_view(r@) == commits_of_type(commits_view(vec@), t@),
{
    let ghost cvs = commits_view(vec@);
    let ghost pred = |c: CommitView| commit_type_of(c) == t@;
    let mut out: Vec<Commit> = Vec::new();
    let n = vec.len();
    assert(commits_view(out@) =~= cvs.take(0).filter(pred));
    for i in it: 0..n
        invariant
            n == vec@.len(),
            cvs == commits_view(vec@),
            pred == (|c: CommitView| commit_type_of(c) == t@),
            commits_view(out@) =~= cvs.take(i as int).filter(pred),
    {
        proof {
            assert(cvs.take(i + 1).drop_last() =~= cvs.take(i as int));
            assert(cvs.take(i + 1).last() == cvs[i as int]);
            reveal(Seq::filter);
        }
        let ct = vec[i].raw_type();
        if ct.same(t) {
            out.push(vec[i].duplicate());
            assert(commits_view(out@) =~= cvs.take(i + 1).filter(pred));
        } else {
            assert(commits_view(out@) =~= cvs.take(i + 1).filter(pred));
        }
    }
    assert(cvs.take(n as int) =~= cvs);
    out
}

/// Group a bucket's commits by kind in display order.
pub fn group_by_commit_type(vec: &Vec<Commit>) -> (r: Vec<(CommitType, Vec<Commit>)>)
    ensures
        grouped_view(r@) == grouped_spec(commits_view(vec@)),
{
    let ghost cvs = commits_view(vec@);
    let mut out: Vec<(CommitType, Vec<Commit>)> = Vec::new();
    let mut canon: Vec<CommitType> = Vec::new();
    canon.push(CommitType::Feat);
    canon.push(CommitType::Fix);
    canon.push(CommitType::Build);
    canon.push(CommitType::Doc);
    canon.push(CommitType::Chore);
    canon.push(CommitType::Ci);
    canon.push(CommitType::Style);
    canon.push(CommitType::Refactor);
    canon.push(CommitType::Perf);
    canon.push(CommitType::Test);
    canon.push(CommitType::Revert);
    canon.push(CommitType::Security);
    assert(canon@.map_values(|t: CommitType| t@) =~= canonical_kinds());
    let m = canon.len();
    proof {
        assert(canonical_kinds().take(0) =~= Seq::<CommitTypeView>::empty());
        reveal(Seq::filter);
        assert(grouped_view(out@) =~= pairs_of(cvs, canon_kinds_upto(cvs, 0)));
    }
    for i in it: 0..m
        invariant
            m == canon@.len(),
            cvs == commits_view(vec@),
            canon@.map_values(|t: CommitType| t@) =~= canonical_kinds(),
            grouped_view(out@) == pairs_of(cvs, canon_kinds_upto(cvs, i as int)),
    {
        let ghost out0 = out@;
        let ghost k = canonical_kinds()[i as int];
        proof {
            assert(canon@.map_values(|t: CommitType| t@)[i as int] == canon@[i as int]@);
            lemma_canon_step(cvs, i as int);
        }
        let g = collect_type(vec, &canon[i]);
        let ghost gv = commits_view(g@);
        if g.len() > 0 {
            let ctd = canon[i].duplicate();
            let ghost ctdv = ctd@;
            out.push((ctd, g));
            proof {
                assert(commits_of_type(cvs, k).len() > 0);
                assert(grouped_view(out@) =~= grouped_view(out0).push((ctdv, gv)));
                assert(ctdv == k);
                assert(gv == commits_of_type(cvs, k));
                assert((ctdv, gv) == pair_of(cvs, k));
                lemma_pairs_push(cvs, canon_kinds_upto(cvs, i as int), k);
                assert(grouped_view(out@) == pairs_of(cvs, canon_kinds_upto(cvs, i + 1)));
            }
        } else {
            proof {
                assert(commits_of_type(cvs, k).len() == 0);
                assert(grouped_view(out@) == pairs_of(cvs, canon_kinds_upto(cvs, i + 1)));
            }
        }
    }
    proof {
        assert(canonical_kinds().take(m as int) =~= canonical_kinds());
    }
    let n = vec.len();
    proof {
        assert(cvs.take(0) =~= Seq::<CommitView>::empty());
        assert(custom_kinds_of(custom_names(cvs.take(0))) =~= Seq::<CommitTypeView>::empty());
        assert(canon_kinds_upto(cvs, 12) + custom_kinds_of(custom_names(cvs.take(0)))
            =~= canon_kinds_upto(cvs, 12));
        assert(grouped_view(out@) == pairs_of(
            cvs,
            canon_kinds_upto(cvs, 12) + custom_kinds_of(custom_names(cvs.take(0))),
        ));
    }
    for i in it: 0..n
        invariant
            n == vec@.len(),
            cvs == commits_view(vec@),
            grouped_view(out@) == pairs_of(
                cvs,
                canon_kinds_upto(cvs, 12) + custom_kinds_of(custom_names(cvs.take(i as int))),
            ),
    {
        proof {
            assert(cvs.take(i + 1).drop_last() =~= cvs.take(i as int));
            assert(cvs.take(i + 1).last() == cvs[i as int]);
        }
        let ct = vec[i].raw_type();
        let is_custom = match &ct {
            CommitType::Custom(_) => true,
            _ => false,
        };
        if is_custom {
            let ghost nm = match commit_type_of(cvs[i as int]) {
                CommitTypeView::Custom(x) => x,
                _ => Seq::empty(),
            };
            assert(ct@ == CommitTypeView::Custom(nm));
            let mut seen = false;
            let mut j: usize = 0;
            while j < i && !seen
                invariant
                    n == vec@.len(),
                    cvs == commits_view(vec@),
                    i < n,
                    j <= i,
                    ct@ == commit_type_of(cvs[i as int]),
                    ct@ == CommitTypeView::Custom(nm),
                    seen ==> exists|w: int|
                        0 <= w < i && commit_type_of(#[trigger] cvs[w]) == CommitTypeView::Custom(
                            nm,
                        ),
                    !seen ==> forall|w: int|
                        0 <= w < j ==> commit_type_of(#[trigger] cvs[w]) != CommitTypeView::Custom(
                            nm,
                        ),
                decreases i - j + (if seen {
                    0int
                } else {
                    1int
                }),
            {
                let cj = vec[j].raw_type();
                if cj.same(&ct) {
                    seen = true;
                    proof {
                        assert(commit_type_of(cvs[j as int]) == CommitTypeView::Custom(nm));
                    }
                } else {
                    j = j + 1;
                }
            }
            proof {
                lemma_custom_names_elems(cvs.take(i as int), nm);
                assert(forall|w: int| 0 <= w < i ==> #[trigger] cvs.take(i as int)[w] == cvs[w]);
            }
            if !seen {
                proof {
                    assert(cvs.len() == vec@.len());
                    assert(j == i);
                    assert(forall|w: int|
                        0 <= w < i ==> commit_type_of(#[trigger] cvs[w])
                            != CommitTypeView::Custom(nm));
                    if custom_names(cvs.take(i as int)).contains(nm) {
                        let w = choose|y: int|
                            0 <= y < cvs.take(i as int).len() && commit_type_of(
                                #[trigger] cvs.take(i as int)[y],
                            ) == CommitTypeView::Custom(nm);
                        assert(cvs.take(i as int).len() == i);
                        assert(0 <= w < i);
                        assert(cvs.take(i as int)[w] == cvs[w]);
                        assert(commit_type_of(cvs[w]) == CommitTypeView::Custom(nm));
                        assert(false);
                    }
                    assert(!custom_names(cvs.take(i as int)).contains(nm));
                    assert(custom_names(cvs.take(i + 1)) == custom_names(cvs.take(i as int)).push(
                        nm,
                    ));
                }
                let ghost out0 = out@;
                let ghost ks0 = canon_kinds_upto(cvs, 12) + custom_kinds_of(
                    custom_names(cvs.take(i as int)),
                );
                let g = collect_type(vec, &ct);
                let ghost gv = commits_view(g@);
                let ghost ctv = ct@;
                out.push((ct, g));
                proof {
                    assert(grouped_view(out@) =~= grouped_view(out0).push((ctv, gv)));
                    assert((ctv, gv) == pair_of(cvs, CommitTypeView::Custom(nm)));
                    lemma_pairs_push(cvs, ks0, CommitTypeView::Custom(nm));
                    assert(ks0.push(CommitTypeView::Custom(nm)) =~= canon_kinds_upto(cvs, 12)
                        + custom_kinds_of(custom_names(cvs.take(i + 1))));
                    assert(grouped_view(out@) == pairs_of(
                        cvs,
                        canon_kinds_upto(cvs, 12) + custom_kinds_of(
                            custom_names(cvs.take(i + 1)),
                        ),
                    ));
                }
            } else {
                proof {
                    let w = choose|w: int|
                        0 <= w < i && commit_type_of(#[trigger] cvs[w]) == CommitTypeView::Custom(
                            nm,
                        );
                    assert(commit_type_of(cvs.take(i as int)[w]) == CommitTypeView::Custom(nm));
                    assert(custom_names(cvs.take(i as int)).contains(nm));
                    assert(custom_names(cvs.take(i + 1)) == custom_names(cvs.take(i as int)));
                }
            }
        } else {
            proof {
                assert(custom_names(cvs.take(i + 1)) == custom_names(cvs.take(i as int)));
            }
        }
    }
    proof {
        assert(cvs.take(n as int) =~= cvs);
    }
    let others = collect_type(vec, &CommitType::Others);
    let ghost ks_all = canon_kinds_upto(cvs, 12) + custom_kinds_of(custom_names(cvs));
    if others.len() > 0 {
        let ghost out0 = out@;
        let ghost ov = commits_view(others@);
        out.push((CommitType::Others, others));
        proof {
            assert(grouped_view(out@) =~= grouped_view(out0).push((CommitTypeView::Others, ov)));
            assert((CommitTypeView::Others, ov) == pair_of(cvs, CommitTypeView::Others));
            lemma_pairs_push(cvs, ks_all, CommitTypeView::Others);
            assert(ks_all.push(CommitTypeView::Others) =~= group_kinds(cvs));
            assert(grouped_view(out@) == grouped_spec(cvs));
        }
    } else {
        proof {
            assert(ks_all =~= group_kinds(cvs));
            assert(grouped_view(out@) == grouped_spec(cvs));
        }
    }
    out
}

// ---------------------------------------------------------------------------
// Partitioning history into release buckets
// ---------------------------------------------------------------------------

/// The running state of the partitioning pass: the most recent tag
/// seen, the commits accumulating for the bucket that tag will close,
/// and the buckets already closed.
#[verifier::ext_equal]
pub ghost struct PartState {
    pub latest: Option<NamableView>,
    pub acc: Seq<CommitView>,
    pub out: Seq<(RangeView, Seq<CommitView>)>,
}

/// One step of the pass over the newest-first commit sequence.
pub open spec fn part_step(st: PartState, c: CommitView, pre: Option<Seq<char>>) -> PartState {
    match effective_tag(c, pre) {
        Some(cur) => match st.latest {
            Some(l) => PartState {
                latest: Some(cur),
                acc: seq![c],
                out: st.out.push((RangeView::Release(cur, l), st.acc)),
            },
            None => if st.acc.len() > 0 {
                PartState {
                    latest: Some(cur),
                    acc: seq![c],
                    out: st.out.push((RangeView::UnRelease(cur), st.acc)),
                }
            } else {
                PartState { latest: Some(cur), acc: seq![c], out: st.out }
            },
        },
        None => PartState { latest: st.latest, acc: st.acc.push(c), out: st.out },
    }
}

/// The state after the first `i` commits.
pub open spec fn part_run(cs: Seq<CommitView>, pre: Option<Seq<char>>, i: int) -> PartState
    decreases i,
{
    if i <= 0 {
        PartState { latest: None, acc: Seq::empty(), out: Seq::empty() }
    } else {
        part_step(part_run(cs, pre, i - 1), cs[i - 1], pre)
    }
}

/// The buckets of a newest-first history, each with its span and its
/// commits in input order; `prev` is the caller's oldest boundary.
pub open spec fn raw_partition(cs: Seq<CommitView>, pre: Option<Seq<char>>, prev: NamableView) -> Seq<
    (RangeView, Seq<CommitView>),
> {
    let st = part_run(cs, pre, cs.len() as int);
    match st.latest {
        Some(n) => st.out.push((RangeView::Release(prev, n), st.acc)),
        None => st.out.push((RangeView::UnRelease(prev), st.acc)),
    }
}

/// The buckets with each body grouped by kind: the whole output of the
/// partitioner.
pub open spec fn bucket_pair(b: (RangeView, Seq<CommitView>)) -> (
    RangeView,
    Seq<(CommitTypeView, Seq<CommitView>)>,
) {
    (b.0, grouped_spec(b.1))
}

pub open spec fn bucket_pairs(bs: Seq<(RangeView, Seq<CommitView>)>) -> Seq<
    (RangeView, Seq<(CommitTypeView, Seq<CommitView>)>),
> {
    bs.map_values(|b: (RangeView, Seq<CommitView>)| bucket_pair(b))
}

proof fn lemma_bucket_pairs_push(bs: Seq<(RangeView, Seq<CommitView>)>, b: (RangeView, Seq<CommitView>))
    ensures
        bucket_pairs(bs.push(b)) == bucket_pairs(bs).push(bucket_pair(b)),
{
    assert(bucket_pairs(bs.push(b)) =~= bucket_pairs(bs).push(bucket_pair(b)));
}

pub open spec fn partition_spec(cs: Seq<CommitView>, pre: Option<Seq<char>>, prev: NamableView) -> Seq<
    (RangeView, Seq<(CommitTypeView, Seq<CommitView>)>),
> {
    bucket_pairs(raw_partition(cs, pre, prev))
}

pub open spec fn raw_view(v: Seq<(ReleaseRange, Vec<Commit>)>) -> Seq<(RangeView, Seq<CommitView>)> {
    v.map_values(|p: (ReleaseRange, Vec<Commit>)| (p.0@, commits_view(p.1@)))
}

pub open spec fn partition_view(v: Seq<(ReleaseRange, Vec<(CommitType, Vec<Commit>)>)>) -> Seq<
    (RangeView, Seq<(CommitTypeView, Seq<CommitView>)>),
> {
    v.map_values(|p: (ReleaseRange, Vec<(CommitType, Vec<Commit>)>)| (p.0@, grouped_view(p.1@)))
}

/// The ordered, walked history: the boundary commit below it and the
/// commits above that boundary, newest first.
#[derive(Debug)]
pub struct Commits {
    prev: Commit,
    commits: Vec<Commit>,
}

/// The boundary point a history ends at: the boundary commit's tag, or
/// the commit itself named by its short hash.
pub open spec fn prev_obj_spec(p: CommitView) -> NamableView {
    match p.obj {
        Some(n) => n,
        None => NamableView::Commit { short_hash: short_of(p.id), datetime: p.datetime },
    }
}

impl Commits {
    pub closed spec fn prev_view(&self) -> CommitView {
        self.prev@
    }

    pub closed spec fn commit_views(&self) -> Seq<CommitView> {
        commits_view(self.commits@)
    }

    pub fn new(prev: Commit, commits: Vec<Commit>) -> (r: Commits)
        ensures
            r.prev_view() == prev@,
            r.commit_views() == commits_view(commits@),
    {
        Commits { prev, commits }
    }

    fn prev_obj(&self) -> (r: NamableObj)
        ensures
            r@ == prev_obj_spec(self.prev_view()),
    {
        match &self.prev.obj {
            Some(o) => o.duplicate(),
            None => NamableObj::Commit {
                short_hash: self.prev.short_hash(),
                datetime: self.prev.datetime,
            },
        }
    }

    /// Split the newest-first history into release buckets and group
    /// each bucket's commits by kind. A tag whose version prefix does
    /// not begin with `tag_prefix` counts as no tag.
    pub fn group_by(&self, tag_prefix: Option<&str>) -> (r: Vec<
        (ReleaseRange, Vec<(CommitType, Vec<Commit>)>),
    >)
        ensures
            partition_view(r@) == partition_spec(self.commit_views(), match tag_prefix {
                Some(p) => Some(p@),
                None => None,
            }, prev_obj_spec(self.prev_view())),
    {
        let ghost cvs = self.commit_views();
        let ghost pre = match tag_prefix {
            Some(p) => Some(p@),
            None => None::<Seq<char>>,
        };
        let mut latest: Option<NamableObj> = None;
        let mut acc: Vec<Commit> = Vec::new();
        let mut raw: Vec<(ReleaseRange, Vec<Commit>)> = Vec::new();
        let n = self.commits.len();
        proof {
            assert(commits_view(acc@) =~~= part_run(cvs, pre, 0).acc);
            assert(raw_view(raw@) =~~= part_run(cvs, pre, 0).out);
        }
        for i in it: 0..n
            invariant
                n == self.commits@.len(),
                cvs == self.commit_views(),
                pre == (match tag_prefix {
                    Some(p) => Some(p@),
                    None => None::<Seq<char>>,
                }),
                (match latest {
                    Some(ref l) => Some(l@),
                    None => None::<NamableView>,
                }) == part_run(cvs, pre, i as int).latest,
                commits_view(acc@) =~~= part_run(cvs, pre, i as int).acc,
                raw_view(raw@) =~~= part_run(cvs, pre, i as int).out,
        {
            let ghost st = part_run(cvs, pre, i as int);
            proof {
                assert(part_run(cvs, pre, i + 1) == part_step(st, cvs[i as int], pre));
            }
            let c = &self.commits[i];
            let tag: Option<NamableObj> = match c.name_obj(tag_prefix) {
                Some(o) => Some(o.duplicate()),
                None => None,
            };
            match tag {
                Some(cur) => {
                    let mut new_acc: Vec<Commit> = Vec::new();
                    new_acc.push(c.duplicate());
                    assert(commits_view(new_acc@) =~~= seq![cvs[i as int]]);
                    let old_latest = latest;
                    latest = Some(cur.duplicate());
                    match old_latest {
                        Some(l) => {
                            raw.push((ReleaseRange::Release(cur, l), acc));
                            acc = new_acc;
                            proof {
                                assert(raw_view(raw@) =~~= part_run(cvs, pre, i + 1).out);
                            }
                        },
                        None => {
                            if acc.len() > 0 {
                                raw.push((ReleaseRange::UnRelease(cur), acc));
                                acc = new_acc;
                                proof {
                                    assert(raw_view(raw@) =~~= part_run(cvs, pre, i + 1).out);
                                }
                            } else {
                                acc = new_acc;
                                proof {
                                    assert(part_run(cvs, pre, i as int).acc.len() == 0);
                                    assert(raw_view(raw@) =~~= part_run(cvs, pre, i + 1).out);
                                }
                            }
                        },
                    }
                },
                None => {
                    acc.push(c.duplicate());
                    proof {
                        assert(commits_view(acc@) =~~= part_run(cvs, pre, i + 1).acc);
                    }
                },
            }
        }
        let prev = self.prev_obj();
        match latest {
            Some(ref l_) => {
                let l = l_.duplicate();
                raw.push((ReleaseRange::Release(prev, l), acc));
            },
            None => {
                raw.push((ReleaseRange::UnRelease(prev), acc));
            },
        }
        proof {
            assert(raw_view(raw@) =~~= raw_partition(cvs, pre, prev_obj_spec(self.prev_view())));
        }
        let ghost rp = raw_partition(cvs, pre, prev_obj_spec(self.prev_view()));
        let mut out: Vec<(ReleaseRange, Vec<(CommitType, Vec<Commit>)>)> = Vec::new();
        let m = raw.len();
        proof {
        assert(rp.take(0) =~= Seq::<(RangeView, Seq<CommitView>)>::empty());
            assert(partition_view(out@) =~= bucket_pairs(rp.take(0)));
        }
        for i in it2: 0..m
            invariant
                m == raw@.len(),
                raw_view(raw@) == rp,
                partition_view(out@) == bucket_pairs(rp.take(i as int)),
        {
            let ghost out0 = out@;
            let grouped = group_by_commit_type(&raw[i].1);
            let ghost gv = grouped_view(grouped@);
            let rd = raw[i].0.duplicate();
            let ghost rdv = rd@;
            out.push((rd, grouped));
            proof {
                assert(raw_view(raw@)[i as int] == rp[i as int]);
                assert(raw_view(raw@)[i as int] == (raw@[i as int].0@, commits_view(
                    raw@[i as int].1@,
                )));
                assert(rdv == rp[i as int].0);
                assert(gv == grouped_spec(rp[i as int].1));
                assert(partition_view(out@) =~= partition_view(out0).push((rdv, gv)));
                assert((rdv, gv) == bucket_pair(rp[i as int]));
                assert(rp.take(i + 1) =~= rp.take(i as int).push(rp[i as int]));
                lemma_bucket_pairs_push(rp.take(i as int), rp[i as int]);
                assert(partition_view(out@) == bucket_pairs(rp.take(i + 1)));
            }
        }
        proof {
            assert(rp.take(m as int) =~= rp);
            assert(partition_view(out@) == partition_spec(cvs, pre, prev_obj_spec(
                self.prev_view(),
            )));
        }
        out
    }
}

// ---------------------------------------------------------------------------
// Laws of the partition
// ---------------------------------------------------------------------------

proof fn lemma_part_run_complete(cs: Seq<CommitView>, pre: Option<Seq<char>>, i: int)
    requires
        0 <= i <= cs.len(),
    ensures
        raw_bodies(part_run(cs, pre, i).out).flatten() + part_run(cs, pre, i).acc =~~= cs.take(i),
    decreases i,
{
    broadcast use Seq::<_>::lemma_flatten_push;

    if i == 0 {
        assert(raw_bodies(part_run(cs, pre, 0).out) =~~= Seq::<Seq<CommitView>>::empty());
    } else {
        lemma_part_run_complete(cs, pre, i - 1);
        let st = part_run(cs, pre, i - 1);
        let c = cs[i - 1];
        let st2 = part_run(cs, pre, i);
        assert(st2 == part_step(st, c, pre));
        assert(cs.take(i) =~~= cs.take(i - 1).push(c));
        match effective_tag(c, pre) {
            Some(cur) => {
                if st.latest is Some || st.acc.len() > 0 {
                    assert(raw_bodies(st2.out) =~~= raw_bodies(st.out).push(st.acc));
                    assert(raw_bodies(st2.out).flatten() =~~= raw_bodies(st.out).flatten()
                        + st.acc);
                    assert(raw_bodies(st2.out).flatten() + st2.acc =~~= cs.take(i));
                } else {
                    assert(st.acc =~~= Seq::<CommitView>::empty());
                    assert(raw_bodies(st2.out).flatten() + st2.acc =~~= cs.take(i));
                }
            },
            None => {
                assert(raw_bodies(st2.out) =~~= raw_bodies(st.out));
                assert(raw_bodies(st2.out).flatten() + st2.acc =~~= cs.take(i));
            },
        }
    }
}

/// How often `x` occurs in a commit sequence.
pub open spec fn occurrences(cs: Seq<CommitView>, x: CommitView) -> int
    decreases cs.len(),
{
    if cs.len() == 0 {
        0
    } else {
        occurrences(cs.drop_last(), x) + (if cs.last() == x {
            1int
        } else {
            0
        })
    }
}

proof fn lemma_occ_concat(a: Seq<CommitView>, b: Seq<CommitView>, x: CommitView)
    ensures
        occurrences(a + b, x) == occurrences(a, x) + occurrences(b, x),
    decreases b.len(),
{
    if b.len() == 0 {
        assert(a + b =~= a);
    } else {
        lemma_occ_concat(a, b.drop_last(), x);
        assert((a + b).drop_last() =~= a + b.drop_last());
        assert((a + b).last() == b.last());
    }
}

proof fn lemma_occ_contains(cs: Seq<CommitView>, x: CommitView)
    ensures
        occurrences(cs, x) > 0 <==> cs.contains(x),
        occurrences(cs, x) >= 0,
    decreases cs.len(),
{
    if cs.len() > 0 {
        lemma_occ_contains(cs.drop_last(), x);
        if cs.contains(x) && cs.last() != x {
            let j = choose|j: int| 0 <= j < cs.len() && cs[j] == x;
            assert(cs.drop_last()[j] == x);
        }
        if cs.drop_last().contains(x) {
            let j = choose|j: int| 0 <= j < cs.drop_last().len() && cs.drop_last()[j] == x;
            assert(cs[j] == x);
        }
    }
}

/// Filtering one kind keeps exactly the occurrences of that kind.
proof fn lemma_occ_filter(cs: Seq<CommitView>, t: CommitTypeView, x: CommitView)
    ensures
        occurrences(commits_of_type(cs, t), x) == (if commit_type_of(x) == t {
            occurrences(cs, x)
        } else {
            0
        }),
    decreases cs.len(),
{
    reveal(Seq::filter);
    if cs.len() == 0 {
    } else {
        lemma_occ_filter(cs.drop_last(), t, x);
        let pred = |c: CommitView| commit_type_of(c) == t;
        if pred(cs.last()) {
            assert(commits_of_type(cs, t) == commits_of_type(cs.drop_last(), t).push(cs.last()));
            assert(commits_of_type(cs, t).drop_last() =~= commits_of_type(cs.drop_last(), t));
        } else {
            assert(commits_of_type(cs, t) == commits_of_type(cs.drop_last(), t));
        }
    }
}

pub open spec fn group_bodies(gs: Seq<(CommitTypeView, Seq<CommitView>)>) -> Seq<Seq<CommitView>> {
    gs.map_values(|p: (CommitTypeView, Seq<CommitView>)| p.1)
}

/// The bodies of the raw buckets, in order.
pub open spec fn raw_bodies(rp: Seq<(RangeView, Seq<CommitView>)>) -> Seq<Seq<CommitView>> {
    rp.map_values(|b: (RangeView, Seq<CommitView>)| b.1)
}

/// Every commit of every grouped bucket, in output order.
pub open spec fn partition_commits(
    ps: Seq<(RangeView, Seq<(CommitTypeView, Seq<CommitView>)>)>,
) -> Seq<CommitView> {
    ps.map_values(
        |b: (RangeView, Seq<(CommitTypeView, Seq<CommitView>)>)| group_bodies(b.1).flatten(),
    ).flatten()
}

/// Summing the filtered groups of distinct kinds counts each commit at
/// most once: exactly once when its kind is listed.
proof fn lemma_occ_groups(cs: Seq<CommitView>, ks: Seq<CommitTypeView>, x: CommitView)
    requires
        ks.no_duplicates(),
    ensures
        occurrences(group_bodies(pairs_of(cs, ks)).flatten(), x) == (if ks.contains(
            commit_type_of(x),
        ) {
            occurrences(cs, x)
        } else {
            0
        }),
    decreases ks.len(),
{
    broadcast use Seq::<_>::lemma_flatten_push;

    if ks.len() == 0 {
        assert(group_bodies(pairs_of(cs, ks)) =~= Seq::<Seq<CommitView>>::empty());
    } else {
        let d = ks.drop_last();
        let k = ks.last();
        assert(d.no_duplicates());
        lemma_occ_groups(cs, d, x);
        assert(ks =~= d.push(k));
        lemma_pairs_push(cs, d, k);
        assert(group_bodies(pairs_of(cs, ks)) =~= group_bodies(pairs_of(cs, d)).push(
            commits_of_type(cs, k),
        ));
        assert(group_bodies(pairs_of(cs, ks)).flatten() =~= group_bodies(
            pairs_of(cs, d),
        ).flatten() + commits_of_type(cs, k));
        lemma_occ_concat(group_bodies(pairs_of(cs, d)).flatten(), commits_of_type(cs, k), x);
        lemma_occ_filter(cs, k, x);
        if d.contains(commit_type_of(x)) {
            let j = choose|j: int| 0 <= j < d.len() && d[j] == commit_type_of(x);
            assert(ks[j] == commit_type_of(x));
            assert(k != commit_type_of(x));
        } else if k == commit_type_of(x) {
            assert(ks.contains(commit_type_of(x))) by {
                assert(ks[ks.len() - 1] == commit_type_of(x));
            }
        } else {
            if ks.contains(commit_type_of(x)) {
                let j = choose|j: int| 0 <= j < ks.len() && ks[j] == commit_type_of(x);
                assert(d[j] == commit_type_of(x));
            }
        }
    }
}

/// Whatever the filter kept was already there.
proof fn lemma_filter_sub(s: Seq<CommitTypeView>, pred: spec_fn(CommitTypeView) -> bool, x: CommitTypeView)
    requires
        s.filter(pred).contains(x),
    ensures
        s.contains(x),
    decreases s.len(),
{
    reveal(Seq::filter);
    if s.len() > 0 {
        let d = s.drop_last();
        if d.filter(pred).contains(x) {
            lemma_filter_sub(d, pred, x);
            let j = choose|j: int| 0 <= j < d.len() && d[j] == x;
            assert(s[j] == x);
        } else {
            assert(pred(s.last()) && x == s.last());
            assert(s[s.len() - 1] == x);
        }
    }
}

/// Filtering keeps elements pairwise distinct.
proof fn lemma_filter_no_dup(s: Seq<CommitTypeView>, pred: spec_fn(CommitTypeView) -> bool)
    requires
        s.no_duplicates(),
    ensures
        s.filter(pred).no_duplicates(),
    decreases s.len(),
{
    reveal(Seq::filter);
    if s.len() > 0 {
        let d = s.drop_last();
        assert(d.no_duplicates()) by {
            assert(forall|i: int, j: int|
                0 <= i < j < d.len() ==> #[trigger] d[i] == s[i] && #[trigger] d[j] == s[j]);
        }
        lemma_filter_no_dup(d, pred);
        if pred(s.last()) {
            if d.filter(pred).contains(s.last()) {
                lemma_filter_sub(d, pred, s.last());
                let j = choose|j: int| 0 <= j < d.len() && d[j] == s.last();
                assert(s[j] == s[s.len() - 1]);
            }
            assert(s.filter(pred) == d.filter(pred).push(s.last()));
            assert forall|i: int, j: int|
                0 <= i < j < s.filter(pred).len() implies s.filter(pred)[i] != s.filter(
                pred,
            )[j] by {
                if j < s.filter(pred).len() - 1 {
                    assert(s.filter(pred)[i] == d.filter(pred)[i]);
                    assert(s.filter(pred)[j] == d.filter(pred)[j]);
                } else {
                    assert(s.filter(pred)[i] == d.filter(pred)[i]);
                    assert(d.filter(pred).contains(d.filter(pred)[i])) by {
                        assert(0 <= i < d.filter(pred).len());
                    }
                }
            }
        }
    }
}

proof fn lemma_custom_names_no_dup(cs: Seq<CommitView>)
    ensures
        custom_names(cs).no_duplicates(),
    decreases cs.len(),
{
    if cs.len() > 0 {
        lemma_custom_names_no_dup(cs.drop_last());
    }
}

/// The listed kinds of a bucket are pairwise distinct.
proof fn lemma_group_kinds_no_dup(cs: Seq<CommitView>)
    ensures
        group_kinds(cs).no_duplicates(),
{
    let canon = canon_kinds_upto(cs, canonical_kinds().len() as int);
    let customs = custom_kinds_of(custom_names(cs));
    let others: Seq<CommitTypeView> = if commits_of_type(cs, CommitTypeView::Others).len() > 0 {
        seq![CommitTypeView::Others]
    } else {
        Seq::empty()
    };
    assert(canonical_kinds().take(canonical_kinds().len() as int) =~= canonical_kinds());
    assert(canonical_kinds().no_duplicates());
    lemma_filter_no_dup(canonical_kinds(), |t: CommitTypeView| commits_of_type(cs, t).len() > 0);
    assert(canon.no_duplicates());
    lemma_custom_names_no_dup(cs);
    assert forall|i: int, j: int| 0 <= i < j < customs.len() implies customs[i] != customs[j] by {
        assert(custom_names(cs)[i] != custom_names(cs)[j]);
    }
    assert forall|i: int| 0 <= i < canon.len() implies rank(#[trigger] canon[i]) < 12 by {
        assert(canon.contains(canon[i]));
        lemma_filter_sub(
            canonical_kinds(),
            |t: CommitTypeView| commits_of_type(cs, t).len() > 0,
            canon[i],
        );
        let w = choose|w: int|
            0 <= w < canonical_kinds().len() && canonical_kinds()[w] == canon[i];
        assert(rank(canonical_kinds()[w]) < 12);
    }
    assert(forall|i: int| 0 <= i < customs.len() ==> rank(#[trigger] customs[i]) == 12);
    assert(forall|i: int| 0 <= i < others.len() ==> rank(#[trigger] others[i]) == 13);
    let gk = group_kinds(cs);
    assert forall|i: int, j: int| 0 <= i < j < gk.len() implies gk[i] != gk[j] by {
        let la = canon.len() as int;
        let lc = customs.len() as int;
        if j < la {
        } else if i < la && j < la + lc {
            assert(gk[i] == canon[i] && gk[j] == customs[j - la]);
            assert(rank(gk[i]) < 12 && rank(gk[j]) == 12);
        } else if i < la {
            assert(gk[i] == canon[i] && gk[j] == others[j - la - lc]);
            assert(rank(gk[i]) < 12 && rank(gk[j]) == 13);
        } else if i < la + lc && j < la + lc {
            assert(gk[i] == customs[i - la] && gk[j] == customs[j - la]);
        } else if i < la + lc {
            assert(gk[i] == customs[i - la] && gk[j] == others[j - la - lc]);
            assert(rank(gk[i]) == 12 && rank(gk[j]) == 13);
        } else {
            assert(others.len() <= 1);
        }
    }
}

/// A commit's kind is always listed for a bucket that holds it.
proof fn lemma_group_kinds_present(cs: Seq<CommitView>, x: CommitView)
    requires
        cs.contains(x),
    ensures
        group_kinds(cs).contains(commit_type_of(x)),
{
    let t = commit_type_of(x);
    let pred = |k: CommitTypeView| commits_of_type(cs, k).len() > 0;
    let canon = canon_kinds_upto(cs, canonical_kinds().len() as int);
    let gk = group_kinds(cs);
    assert(canonical_kinds().take(canonical_kinds().len() as int) =~= canonical_kinds());
    cs.filter_lemma(|c: CommitView| commit_type_of(c) == t);
    assert(commits_of_type(cs, t).contains(x));
    assert(commits_of_type(cs, t).len() > 0);
    match t {
        CommitTypeView::Custom(nm) => {
            lemma_custom_names_elems(cs, nm);
            let j = choose|j: int| 0 <= j < cs.len() && cs[j] == x;
            assert(commit_type_of(cs[j]) == CommitTypeView::Custom(nm));
            assert(custom_names(cs).contains(nm));
            let w = choose|w: int|
                0 <= w < custom_names(cs).len() && custom_names(cs)[w] == nm;
            assert(custom_kinds_of(custom_names(cs))[w] == t);
            assert(gk[canon.len() + w] == t);
        },
        CommitTypeView::Others => {
            assert(gk[gk.len() - 1] == t);
        },
        _ => {
            let r = rank(t);
            assert(canonical_kinds()[r] == t);
            canonical_kinds().filter_lemma(pred);
            assert(canonical_kinds().contains(t)) by {
                assert(canonical_kinds()[r] == t);
            }
            assert(canon.contains(t));
            let w = choose|w: int| 0 <= w < canon.len() && canon[w] == t;
            assert(gk[w] == t);
        },
    }
}

/// Law: grouping a bucket's commits by kind keeps exactly the commits
/// the bucket holds — every commit occurs in the grouped lists as
/// often as it occurred in the bucket.
pub proof fn lemma_grouping_complete(cs: Seq<CommitView>, x: CommitView)
    ensures
        occurrences(group_bodies(grouped_spec(cs)).flatten(), x) == occurrences(cs, x),
{
    lemma_group_kinds_no_dup(cs);
    lemma_occ_groups(cs, group_kinds(cs), x);
    if !group_kinds(cs).contains(commit_type_of(x)) {
        lemma_occ_contains(cs, x);
        if cs.contains(x) {
            lemma_group_kinds_present(cs, x);
        }
    }
}

/// Law: across the whole partition, the grouped buckets together hold
/// every input commit exactly as often as the input does — nothing is
/// dropped, duplicated, or invented.
pub proof fn lemma_partition_groups_complete(
    cs: Seq<CommitView>,
    pre: Option<Seq<char>>,
    prev: NamableView,
    x: CommitView,
)
    ensures
        occurrences(partition_commits(partition_spec(cs, pre, prev)), x) == occurrences(cs, x),
{
    lemma_partition_complete(cs, pre, prev);
    let rp = raw_partition(cs, pre, prev);
    lemma_partition_buckets_occ(rp, x);
    assert(raw_bodies(rp).flatten() == cs);
}

/// Summed over the grouped buckets, occurrences match the raw bodies.
proof fn lemma_partition_buckets_occ(rp: Seq<(RangeView, Seq<CommitView>)>, x: CommitView)
    ensures
        occurrences(partition_commits(bucket_pairs(rp)), x) == occurrences(
            raw_bodies(rp).flatten(),
            x,
        ),
    decreases rp.len(),
{
    broadcast use Seq::<_>::lemma_flatten_push;

    if rp.len() == 0 {
        assert(bucket_pairs(rp).map_values(
            |b: (RangeView, Seq<(CommitTypeView, Seq<CommitView>)>)|
                group_bodies(b.1).flatten(),
        ) =~= Seq::<Seq<CommitView>>::empty());
        assert(raw_bodies(rp) =~= Seq::<Seq<CommitView>>::empty());
    } else {
        let d = rp.drop_last();
        let l = rp.last();
        lemma_partition_buckets_occ(d, x);
        assert(rp =~= d.push(l));
        lemma_bucket_pairs_push(d, l);
        assert(bucket_pairs(rp).map_values(
            |b: (RangeView, Seq<(CommitTypeView, Seq<CommitView>)>)|
                group_bodies(b.1).flatten(),
        ) =~= bucket_pairs(d).map_values(
            |b: (RangeView, Seq<(CommitTypeView, Seq<CommitView>)>)|
                group_bodies(b.1).flatten(),
        ).push(group_bodies(grouped_spec(l.1)).flatten()));
        assert(partition_commits(bucket_pairs(rp)) =~= partition_commits(bucket_pairs(d))
            + group_bodies(grouped_spec(l.1)).flatten());
        assert(raw_bodies(rp) =~= raw_bodies(d).push(l.1));
        assert(raw_bodies(rp).flatten() =~= raw_bodies(d).flatten() + l.1);
        lemma_occ_concat(
            partition_commits(bucket_pairs(d)),
            group_bodies(grouped_spec(l.1)).flatten(),
            x,
        );
        lemma_occ_concat(raw_bodies(d).flatten(), l.1, x);
        lemma_grouping_complete(l.1, x);
    }
}

/// Law: laid over the newest-first input, the bucket bodies are
/// contiguous, non-overlapping, and complete — concatenated in output
/// order they are exactly the input sequence, with no commit dropped,
/// duplicated, or reordered.
pub proof fn lemma_partition_complete(cs: Seq<CommitView>, pre: Option<Seq<char>>, prev: NamableView)
    ensures
        raw_bodies(raw_partition(cs, pre, prev)).flatten() =~~= cs,
{
    broadcast use Seq::<_>::lemma_flatten_push;

    lemma_part_run_complete(cs, pre, cs.len() as int);
    let st = part_run(cs, pre, cs.len() as int);
    assert(cs.take(cs.len() as int) =~~= cs);
    assert(raw_bodies(raw_partition(cs, pre, prev)) =~~= raw_bodies(st.out).push(st.acc));
}

} // verus!
