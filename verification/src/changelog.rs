//! Rendering the partitioned history as markdown: headings per
//! release, sub-headings per change kind, one line per commit, and a
//! block of reference links when a remote is known.

use vstd::prelude::*;
use vstd::string::*;

use crate::commit::Commit;
use crate::commit::Commits;
use crate::commit::CommitView;
use crate::commit::RangeView;
use crate::commit::ReleaseRange;
use crate::commit::commit_type_of;
use crate::commit::commits_view;
use crate::commit::grouped_view;
use crate::commit::message_of;
use crate::commit::short_of;
use crate::commit::namable_name;
use crate::commit::namable_time;
use crate::commit::date_label;
use crate::commit::display_name;
use crate::commit::AuthorView;
use crate::commit::partition_spec;
use crate::conventional_commit::CommitType;
use crate::conventional_commit::CommitTypeView;
use crate::conventional_commit::label_of;
use crate::github_url::GithubUrl;
use crate::github_url::compare_link;
use crate::github_url::commit_link;
use crate::strutil::char_repeat;
use crate::strutil::repeat_char;
use crate::strutil::join_with;
use crate::strutil::lemma_join_with_push;

verus! {

// ---------------------------------------------------------------------------
// The user-supplied summary filter
// ---------------------------------------------------------------------------

#[verifier::external_type_specification]
#[verifier::external_body]
pub struct ExRegex(regex::Regex);

/// What `regex::Regex::is_match` answers for a pattern and a text; it
/// depends on the two texts alone.
pub uninterp spec fn regex_match(pattern: Seq<char>, text: Seq<char>) -> bool;

/// A compiled ignore pattern, remembering its source text.
#[derive(Debug)]
pub struct SummaryFilter {
    pattern: String,
    re: regex::Regex,
}

impl View for SummaryFilter {
    type V = Seq<char>;

    closed spec fn view(&self) -> Seq<char> {
        self.pattern@
    }
}

impl SummaryFilter {
    /// Relies on `regex::Regex::new`: compiling the pattern succeeds or
    /// fails; on success the filter holds exactly that pattern.
    #[verifier::external_body]
    pub fn new(pattern: &str) -> (r: Option<SummaryFilter>)
        ensures
            match r {
                Some(f) => f@ == pattern@,
                None => true,
            },
    {
        match regex::Regex::new(pattern) {
            Ok(re) => Some(SummaryFilter { pattern: pattern.to_string(), re }),
            Err(_) => None,
        }
    }

    /// Relies on `regex::Regex::is_match`: the compiled form came from
    /// `pattern`, so the answer is a function of pattern and text.
    #[verifier::external_body]
    pub fn matches(&self, text: &str) -> (r: bool)
        ensures
            r == regex_match(self@, text@),
    {
        self.re.is_match(text)
    }
}

// ---------------------------------------------------------------------------
// Configuration
// ---------------------------------------------------------------------------

#[verifier::ext_equal]
pub ghost struct ConfigView {
    pub enable_email_link: bool,
    pub reverse: bool,
    pub root_indent_level: int,
    pub ignore_summary: Option<Seq<char>>,
    pub ignore_types: Option<Seq<CommitTypeView>>,
    pub tag_prefix: Option<Seq<char>>,
    pub include_merge_commits: bool,
}

/// The options a caller may set. Merge commits are left out of the
/// walked history unless asked for.
#[derive(Debug)]
pub struct Config {
    pub enable_email_link: bool,
    pub reverse: bool,
    pub root_indent_level: u8,
    pub ignore_summary: Option<SummaryFilter>,
    pub ignore_types: Option<Vec<CommitType>>,
    pub tag_prefix: Option<String>,
    pub include_merge_commits: bool,
}

impl View for Config {
    type V = ConfigView;

    open spec fn view(&self) -> ConfigView {
        ConfigView {
            enable_email_link: self.enable_email_link,
            reverse: self.reverse,
            root_indent_level: self.root_indent_level as int,
            ignore_summary: match self.ignore_summary {
                Some(ref f) => Some(f@),
                None => None,
            },
            ignore_types: match self.ignore_types {
                Some(ref ts) => Some(ts@.map_values(|t: CommitType| t@)),
                None => None,
            },
            tag_prefix: match self.tag_prefix {
                Some(ref p) => Some(p@),
                None => None,
            },
            include_merge_commits: self.include_merge_commits,
        }
    }
}

/// The stock configuration.
pub open spec fn default_config() -> ConfigView {
    ConfigView {
        enable_email_link: false,
        reverse: false,
        root_indent_level: 2,
        ignore_summary: None,
        ignore_types: None,
        tag_prefix: None,
        include_merge_commits: false,
    }
}

impl Default for Config {
    /// The stock options: plain author names, input order, headings at
    /// depth two, nothing ignored, no explicit prefix.
    fn default() -> (r: Config)
        ensures
            r@ == default_config(),
    {
        let r = Config {
            enable_email_link: false,
            reverse: false,
            root_indent_level: 2,
            ignore_summary: None,
            ignore_types: None,
            tag_prefix: None,
            include_merge_commits: false,
        };
        proof {
            assert(r@ =~~= default_config());
        }
        r
    }
}

// ---------------------------------------------------------------------------
// What the renderer produces, piece by piece
// ---------------------------------------------------------------------------

pub open spec fn nl() -> Seq<char> {
    seq!['\n']
}

/// Whether a commit survives the caller's filters.
pub open spec fn keep(conf: ConfigView, c: CommitView) -> bool {
    (match conf.ignore_summary {
        Some(p) => !regex_match(p, message_of(c)),
        None => true,
    }) && (match conf.ignore_types {
        Some(ts) => !ts.contains(commit_type_of(c)),
        None => true,
    })
}

/// One kind's commits as shown: optionally reversed, then filtered.
pub open spec fn kept_commits(conf: ConfigView, cs: Seq<CommitView>) -> Seq<CommitView> {
    (if conf.reverse {
        cs.reverse()
    } else {
        cs
    }).filter(|c: CommitView| keep(conf, c))
}

/// The author as shown: a mailto link when asked for and an email is
/// known, the plain name otherwise.
pub open spec fn author_text(a: AuthorView, email_link: bool) -> Seq<char> {
    match a.email {
        Some(e) => if email_link {
            seq!['['] + display_name(a) + seq![']', '(', 'm', 'a', 'i', 'l', 't', 'o', ':'] + e
                + seq![')']
        } else {
            display_name(a)
        },
        None => display_name(a),
    }
}

/// One commit's line: its short hash (double-bracketed when linked),
/// its message, and its author.
pub open spec fn item_line(urlp: bool, email_link: bool, c: CommitView) -> Seq<char> {
    (if urlp {
        seq!['-', ' ', '[', '['] + short_of(c.id) + seq![']', ']', ' ']
    } else {
        seq!['-', ' ', '['] + short_of(c.id) + seq![']', ' ']
    }) + message_of(c) + seq![' ', '('] + author_text(c.author, email_link) + seq![')']
}

/// One commit's reference link.
pub open spec fn item_link(base: Seq<char>, c: CommitView) -> Seq<char> {
    seq!['['] + short_of(c.id) + seq![']', ':', ' '] + commit_link(base, c.id)
}

/// The shown lines of a list of commits.
pub open spec fn item_lines_of(conf: ConfigView, urlp: bool, cs: Seq<CommitView>) -> Seq<Seq<char>> {
    cs.map_values(|c: CommitView| item_line(urlp, conf.enable_email_link, c))
}

/// The reference links of a list of commits.
pub open spec fn item_links_of(base: Seq<char>, cs: Seq<CommitView>) -> Seq<Seq<char>> {
    cs.map_values(|c: CommitView| item_link(base, c))
}

proof fn lemma_item_lines_push(conf: ConfigView, urlp: bool, cs: Seq<CommitView>, c: CommitView)
    ensures
        item_lines_of(conf, urlp, cs.push(c)) == item_lines_of(conf, urlp, cs).push(
            item_line(urlp, conf.enable_email_link, c),
        ),
{
    assert(item_lines_of(conf, urlp, cs.push(c)) =~~= item_lines_of(conf, urlp, cs).push(
        item_line(urlp, conf.enable_email_link, c),
    ));
}

proof fn lemma_item_links_push(base: Seq<char>, cs: Seq<CommitView>, c: CommitView)
    ensures
        item_links_of(base, cs.push(c)) == item_links_of(base, cs).push(item_link(base, c)),
{
    assert(item_links_of(base, cs.push(c)) =~~= item_links_of(base, cs).push(item_link(base, c)));
}

pub open spec fn sub_heading_text(conf: ConfigView, ct: CommitTypeView) -> Seq<char> {
    char_repeat('#', conf.root_indent_level + 1) + seq![' '] + label_of(ct)
}

/// One kind's section, or nothing when every commit was filtered away.
pub open spec fn section_text(conf: ConfigView, urlp: bool, ct: CommitTypeView, cs: Seq<CommitView>) -> Option<
    Seq<char>,
> {
    let items = kept_commits(conf, cs);
    if items.len() == 0 {
        None
    } else {
        Some(
            sub_heading_text(conf, ct) + nl() + join_with(item_lines_of(conf, urlp, items), nl())
                + nl(),
        )
    }
}

/// The reference links of one rendered section.
pub open spec fn section_links(conf: ConfigView, base: Seq<char>, cs: Seq<CommitView>) -> Seq<
    Seq<char>,
> {
    item_links_of(base, kept_commits(conf, cs))
}

/// The texts of a bucket's rendered sections, in kind order.
pub open spec fn bucket_sections(
    conf: ConfigView,
    urlp: bool,
    gs: Seq<(CommitTypeView, Seq<CommitView>)>,
) -> Seq<Seq<char>>
    decreases gs.len(),
{
    if gs.len() == 0 {
        Seq::empty()
    } else {
        bucket_sections(conf, urlp, gs.drop_last()) + (match section_text(
            conf,
            urlp,
            gs.last().0,
            gs.last().1,
        ) {
            Some(s) => seq![s],
            None => Seq::empty(),
        })
    }
}

/// The reference links of a bucket's rendered sections, in order.
pub open spec fn bucket_item_links(
    conf: ConfigView,
    base: Seq<char>,
    urlp: bool,
    gs: Seq<(CommitTypeView, Seq<CommitView>)>,
) -> Seq<Seq<char>>
    decreases gs.len(),
{
    if gs.len() == 0 {
        Seq::empty()
    } else {
        bucket_item_links(conf, base, urlp, gs.drop_last()) + (match section_text(
            conf,
            urlp,
            gs.last().0,
            gs.last().1,
        ) {
            Some(_) => section_links(conf, base, gs.last().1),
            None => Seq::empty(),
        })
    }
}

pub open spec fn bucket_body(
    conf: ConfigView,
    urlp: bool,
    gs: Seq<(CommitTypeView, Seq<CommitView>)>,
) -> Seq<char> {
    join_with(bucket_sections(conf, urlp, gs), nl())
}

pub open spec fn unreleased_label() -> Seq<char> {
    seq!['U', 'n', 'r', 'e', 'l', 'e', 'a', 's', 'e', 'd']
}

/// A bucket's heading subject: the closing boundary's name and date,
/// or the unreleased marker; bracketed when linked.
pub open spec fn heading_subject(urlp: bool, rv: RangeView) -> Seq<char> {
    match rv {
        RangeView::Release(_, e) => if urlp {
            seq!['['] + namable_name(e) + seq![']', ' ', '-', ' '] + date_label(namable_time(e))
        } else {
            namable_name(e) + seq![' ', '-', ' '] + date_label(namable_time(e))
        },
        RangeView::UnRelease(_) => if urlp {
            seq!['['] + unreleased_label() + seq![']']
        } else {
            unreleased_label()
        },
    }
}

pub open spec fn heading_text(conf: ConfigView, urlp: bool, rv: RangeView) -> Seq<char> {
    char_repeat('#', conf.root_indent_level) + seq![' '] + heading_subject(urlp, rv)
}

/// A bucket's heading reference link.
pub open spec fn heading_link(base: Seq<char>, rv: RangeView) -> Seq<char> {
    match rv {
        RangeView::Release(s, e) => seq!['['] + namable_name(e) + seq![']', ':', ' ']
            + compare_link(base, s, Some(e)),
        RangeView::UnRelease(s) => seq!['['] + unreleased_label() + seq![']', ':', ' ']
            + compare_link(base, s, None),
    }
}

/// A bucket's full text, or nothing when it renders no section.
pub open spec fn bucket_text(
    conf: ConfigView,
    urlp: bool,
    b: (RangeView, Seq<(CommitTypeView, Seq<CommitView>)>),
) -> Option<Seq<char>> {
    let body = bucket_body(conf, urlp, b.1);
    if body.len() == 0 {
        None
    } else {
        Some(heading_text(conf, urlp, b.0) + nl() + body)
    }
}

/// A bucket's reference links: its heading link, then its items'.
pub open spec fn bucket_links(
    conf: ConfigView,
    base: Seq<char>,
    b: (RangeView, Seq<(CommitTypeView, Seq<CommitView>)>),
) -> Seq<Seq<char>> {
    if bucket_text(conf, true, b) is None {
        Seq::empty()
    } else {
        seq![heading_link(base, b.0)] + bucket_item_links(conf, base, true, b.1)
    }
}

/// The texts of every rendered bucket, in order.
pub open spec fn all_bucket_texts(
    conf: ConfigView,
    urlp: bool,
    bs: Seq<(RangeView, Seq<(CommitTypeView, Seq<CommitView>)>)>,
) -> Seq<Seq<char>>
    decreases bs.len(),
{
    if bs.len() == 0 {
        Seq::empty()
    } else {
        all_bucket_texts(conf, urlp, bs.drop_last()) + (match bucket_text(conf, urlp, bs.last()) {
            Some(s) => seq![s],
            None => Seq::empty(),
        })
    }
}

/// The reference links of every rendered bucket, in order.
pub open spec fn all_links(
    conf: ConfigView,
    base: Seq<char>,
    bs: Seq<(RangeView, Seq<(CommitTypeView, Seq<CommitView>)>)>,
) -> Seq<Seq<char>>
    decreases bs.len(),
{
    if bs.len() == 0 {
        Seq::empty()
    } else {
        all_links(conf, base, bs.drop_last()) + bucket_links(conf, base, bs.last())
    }
}

/// The whole document: the rendered buckets joined by blank lines, and
/// the link block when any link was collected.
pub open spec fn markdown_spec(
    conf: ConfigView,
    base: Option<Seq<char>>,
    bs: Seq<(RangeView, Seq<(CommitTypeView, Seq<CommitView>)>)>,
) -> Seq<char> {
    let body = join_with(all_bucket_texts(conf, base is Some, bs), nl());
    match base {
        Some(b) => {
            let links = all_links(conf, b, bs);
            if links.len() == 0 {
                body
            } else {
                body + nl() + join_with(links, nl()) + nl()
            }
        },
        None => body,
    }
}

pub open spec fn strings_view(v: Seq<String>) -> Seq<Seq<char>> {
    v.map_values(|s: String| s@)
}

// ---------------------------------------------------------------------------
// The renderer
// ---------------------------------------------------------------------------

/// The markdown renderer, carrying the caller's options.
#[derive(Debug)]
pub struct Changelog {
    conf: Config,
}

impl Changelog {
    pub closed spec fn conf_view(&self) -> ConfigView {
        self.conf@
    }

    /// A renderer with the stock options.
    pub fn new() -> (r: Changelog)
        ensures
            r.conf_view() == default_config(),
    {
        Changelog { conf: Config::default() }
    }

    /// A renderer with the given options.
    pub fn from(config: Config) -> (r: Changelog)
        ensures
            r.conf_view() == config@,
    {
        Changelog { conf: config }
    }

    /// Whether a commit survives the configured filters.
    fn keep_commit(&self, c: &Commit) -> (r: bool)
        ensures
            r == keep(self.conf_view(), c@),
    {
        let mut drop_by_summary = false;
        if let Some(f) = &self.conf.ignore_summary {
            let m = c.message();
            drop_by_summary = f.matches(m.as_str());
            proof {
                assert(self.conf_view().ignore_summary == Some(f@));
                assert(drop_by_summary == regex_match(f@, message_of(c@)));
            }
        }
        proof {
            assert(drop_by_summary == (match self.conf_view().ignore_summary {
                Some(p) => regex_match(p, message_of(c@)),
                None => false,
            }));
        }
        let mut drop_by_type = false;
        if let Some(ts) = &self.conf.ignore_types {
            let ghost tv = ts@.map_values(|t: CommitType| t@);
            proof {
                assert(self.conf_view().ignore_types == Some(tv));
                assert(tv.len() == ts@.len());
            }
            let ct = c.raw_type();
            let n = ts.len();
            let mut found = false;
            let mut i: usize = 0;
            while i < n && !found
                invariant
                    n == ts@.len(),
                    tv == ts@.map_values(|t: CommitType| t@),
                    i <= n,
                    ct@ == commit_type_of(c@),
                    found ==> tv.contains(commit_type_of(c@)),
                    !found ==> forall|j: int| 0 <= j < i ==> #[trigger] tv[j] != commit_type_of(c@),
                decreases n - i + (if found {
                    0int
                } else {
                    1int
                }),
            {
                if ts[i].same(&ct) {
                    proof {
                        assert(tv[i as int] == ts@[i as int]@);
                        assert(tv[i as int] == commit_type_of(c@));
                    }
                    found = true;
                } else {
                    proof {
                        assert(tv[i as int] == ts@[i as int]@);
                    }
                    i = i + 1;
                }
            }
            proof {
                if !found && tv.contains(commit_type_of(c@)) {
                    let w = choose|w: int| 0 <= w < tv.len() && tv[w] == commit_type_of(c@);
                    assert(tv[w] != commit_type_of(c@));
                }
                assert(found == tv.contains(commit_type_of(c@)));
            }
            drop_by_type = found;
        }
        proof {
            assert(drop_by_type == (match self.conf_view().ignore_types {
                Some(ts2) => ts2.contains(commit_type_of(c@)),
                None => false,
            }));
        }
        !(drop_by_summary || drop_by_type)
    }

    /// The commits of one kind as shown: reversed when asked, then
    /// filtered.
    fn kept(&self, cs: &Vec<Commit>) -> (r: Vec<Commit>)
        ensures
            commits_view(r@) == kept_commits(self.conf_view(), commits_view(cs@)),
    {
        let n = cs.len();
        let mut ordered: Vec<Commit> = Vec::new();
        if self.conf.reverse {
            let mut i = n;
            while i > 0
                invariant
                    n == cs@.len(),
                    i <= n,
                    commits_view(ordered@) =~~= commits_view(cs@).reverse().take(n - i),
                decreases i,
            {
                i = i - 1;
                ordered.push(cs[i].duplicate());
                proof {
                    let rev = commits_view(cs@).reverse();
                    assert(rev.len() == n);
                    assert(rev[n - 1 - i] == commits_view(cs@)[i as int]);
                    assert(commits_view(cs@)[i as int] == cs@[i as int]@);
                    assert(rev.take(n - i) =~~= rev.take(n - i - 1).push(rev[n - i - 1]));
                    assert(commits_view(ordered@) =~~= rev.take(n - i));
                }
            }
            proof {
                assert(commits_view(cs@).reverse().take(n as int) =~~= commits_view(cs@).reverse());
            }
        } else {
            let mut i: usize = 0;
            while i < n
                invariant
                    n == cs@.len(),
                    i <= n,
                    commits_view(ordered@) =~~= commits_view(cs@).take(i as int),
                decreases n - i,
            {
                ordered.push(cs[i].duplicate());
                proof {
                    let cvs0 = commits_view(cs@);
                    assert(cvs0[i as int] == cs@[i as int]@);
                    assert(cvs0.take(i + 1) =~~= cvs0.take(i as int).push(cvs0[i as int]));
                    assert(commits_view(ordered@) =~~= cvs0.take(i + 1));
                }
                i = i + 1;
            }
            proof {
                assert(commits_view(cs@).take(n as int) =~~= commits_view(cs@));
            }
        }
        let ghost ovs = commits_view(ordered@);
        let ghost pred = |c: CommitView| keep(self.conf_view(), c);
        let mut out: Vec<Commit> = Vec::new();
        let m = ordered.len();
        assert(commits_view(out@) =~~= ovs.take(0).filter(pred));
        let mut i: usize = 0;
        while i < m
            invariant
                m == ordered@.len(),
                ovs == commits_view(ordered@),
                i <= m,
                pred == (|c: CommitView| keep(self.conf_view(), c)),
                commits_view(out@) =~~= ovs.take(i as int).filter(pred),
            decreases m - i,
        {
            proof {
                assert(ovs.take(i + 1).drop_last() =~~= ovs.take(i as int));
                assert(ovs.take(i + 1).last() == ovs[i as int]);
                reveal(Seq::filter);
            }
            if self.keep_commit(&ordered[i]) {
                out.push(ordered[i].duplicate());
                assert(commits_view(out@) =~~= ovs.take(i + 1).filter(pred));
            } else {
                assert(commits_view(out@) =~~= ovs.take(i + 1).filter(pred));
            }
            i = i + 1;
        }
        proof {
            assert(ovs.take(m as int) =~~= ovs);
        }
        out
    }

    /// The author as shown on one line.
    fn author(&self, a: &crate::commit::Author) -> (r: String)
        ensures
            r@ == author_text(a@, self.conf_view().enable_email_link),
    {
        proof {
            reveal_strlit("[");
            reveal_strlit("](mailto:");
            reveal_strlit(")");
            assert("["@ =~~= seq!['[']);
            assert("](mailto:"@ =~~= seq![']', '(', 'm', 'a', 'i', 'l', 't', 'o', ':']);
            assert(")"@ =~~= seq![')']);
        }
        match a.email() {
            Some(e) if self.conf.enable_email_link => {
                let mut r = String::from_str("[");
                r.append(a.name());
                r.append("](mailto:");
                r.append(e);
                r.append(")");
                proof {
                    assert(r@ =~~= author_text(a@, self.conf_view().enable_email_link));
                }
                r
            },
            _ => {
                let r = a.name().to_owned();
                proof {
                    assert(r@ =~~= author_text(a@, self.conf_view().enable_email_link));
                }
                r
            },
        }
    }

    /// One commit's line.
    fn item(&self, urlp: bool, c: &Commit) -> (r: String)
        ensures
            r@ == item_line(urlp, self.conf_view().enable_email_link, c@),
    {
        proof {
            reveal_strlit("- [[");
            reveal_strlit("]] ");
            reveal_strlit("- [");
            reveal_strlit("] ");
            reveal_strlit(" (");
            reveal_strlit(")");
            assert("- [["@ =~~= seq!['-', ' ', '[', '[']);
            assert("]] "@ =~~= seq![']', ']', ' ']);
            assert("- ["@ =~~= seq!['-', ' ', '[']);
            assert("] "@ =~~= seq![']', ' ']);
            assert(" ("@ =~~= seq![' ', '(']);
            assert(")"@ =~~= seq![')']);
        }
        let hash = c.short_hash();
        let mut r = if urlp {
            let mut s = String::from_str("- [[");
            s.append(hash.as_str());
            s.append("]] ");
            s
        } else {
            let mut s = String::from_str("- [");
            s.append(hash.as_str());
            s.append("] ");
            s
        };
        let msg = c.message();
        r.append(msg.as_str());
        r.append(" (");
        let au = self.author(c.author());
        r.append(au.as_str());
        r.append(")");
        proof {
            assert(r@ =~~= item_line(urlp, self.conf_view().enable_email_link, c@));
        }
        r
    }

    /// One commit's reference link.
    fn item_ref(&self, u: &GithubUrl, c: &Commit) -> (r: String)
        ensures
            r@ == item_link(u@, c@),
    {
        proof {
            reveal_strlit("[");
            reveal_strlit("]: ");
            assert("["@ =~~= seq!['[']);
            assert("]: "@ =~~= seq![']', ':', ' ']);
        }
        let mut r = String::from_str("[");
        let hash = c.short_hash();
        r.append(hash.as_str());
        r.append("]: ");
        let link = u.commit(c);
        r.append(link.as_str());
        proof {
            assert(r@ =~~= item_link(u@, c@));
        }
        r
    }

    fn sub_heading(&self, ct: &CommitType) -> (r: String)
        ensures
            r@ == sub_heading_text(self.conf_view(), ct@),
    {
        proof {
            reveal_strlit(" ");
            assert(" "@ =~~= seq![' ']);
        }
        let mut r = repeat_char('#', (self.conf.root_indent_level as usize) + 1);
        r.append(" ");
        let label = ct.label();
        r.append(label.as_str());
        proof {
            assert(r@ =~~= sub_heading_text(self.conf_view(), ct@));
        }
        r
    }

    /// Join lines with newlines.
    fn join_lines(v: &Vec<String>) -> (r: String)
        ensures
            r@ == join_with(strings_view(v@), nl()),
    {
        proof {
            reveal_strlit("\n");
            assert("\n"@ =~~= nl());
        }
        let ghost tv = strings_view(v@);
        let mut r = String::new();
        let n = v.len();
        assert(tv.take(0) =~~= Seq::<Seq<char>>::empty());
        for i in it: 0..n
            invariant
                n == v@.len(),
                tv == strings_view(v@),
                r@ =~~= join_with(tv.take(i as int), nl()),
        {
            proof {
                reveal_strlit("\n");
                assert("\n"@ =~~= nl());
                lemma_join_with_push(tv.take(i as int), nl(), tv[i as int]);
                assert(tv.take(i + 1) =~~= tv.take(i as int).push(tv[i as int]));
            }
            if i > 0 {
                r.append("\n");
            }
            r.append(v[i].as_str());
            assert(r@ =~~= join_with(tv.take(i + 1), nl()));
        }
        assert(tv.take(n as int) =~~= tv);
        r
    }

    /// One kind's section and its reference links; nothing when every
    /// commit of the kind was filtered away.
    fn section(&self, url: Option<&GithubUrl>, ct: &CommitType, cs: &Vec<Commit>) -> (r: (
        Option<String>,
        Vec<String>,
    ))
        ensures
            ({
                let conf = self.conf_view();
                let cvs = commits_view(cs@);
                let urlp = url is Some;
                &&& (match r.0 {
                    Some(s) => section_text(conf, urlp, ct@, cvs) == Some(s@),
                    None => section_text(conf, urlp, ct@, cvs) is None,
                })
                &&& strings_view(r.1@) == (match url {
                    Some(u) => if section_text(conf, urlp, ct@, cvs) is Some {
                        section_links(conf, u@, cvs)
                    } else {
                        Seq::<Seq<char>>::empty()
                    },
                    None => Seq::<Seq<char>>::empty(),
                })
            }),
    {
        let ghost conf = self.conf_view();
        let ghost cvs = commits_view(cs@);
        let urlp = match url {
            Some(_) => true,
            None => false,
        };
        let items = self.kept(cs);
        let ghost kvs = kept_commits(conf, cvs);
        let k = items.len();
        if k == 0 {
            let r: (Option<String>, Vec<String>) = (None, Vec::new());
            proof {
                assert(strings_view(r.1@) =~~= Seq::<Seq<char>>::empty());
            }
            return r;
        }
        let mut lines: Vec<String> = Vec::new();
        let mut links: Vec<String> = Vec::new();
        proof {
            assert(kvs.take(0) =~~= Seq::<CommitView>::empty());
            assert(strings_view(lines@) =~~= item_lines_of(conf, urlp, kvs.take(0)));
        }
        for i in it: 0..k
            invariant
                k == items@.len(),
                kvs == commits_view(items@),
                conf == self.conf_view(),
                cvs == commits_view(cs@),
                urlp == (url is Some),
                strings_view(lines@) =~~= item_lines_of(conf, urlp, kvs.take(i as int)),
                strings_view(links@) =~~= (match url {
                    Some(u) => item_links_of(u@, kvs.take(i as int)),
                    None => Seq::<Seq<char>>::empty(),
                }),
        {
            proof {
                assert(kvs.take(i + 1) =~~= kvs.take(i as int).push(kvs[i as int]));
                assert(kvs[i as int] == items@[i as int]@);
                lemma_item_lines_push(conf, urlp, kvs.take(i as int), kvs[i as int]);
            }
            let line = self.item(urlp, &items[i]);
            lines.push(line);
            proof {
                assert(strings_view(lines@) =~~= item_lines_of(conf, urlp, kvs.take(i + 1)));
            }
            match url {
                Some(u) => {
                    proof {
                        lemma_item_links_push(u@, kvs.take(i as int), kvs[i as int]);
                    }
                    let lk = self.item_ref(u, &items[i]);
                    links.push(lk);
                    proof {
                        assert(strings_view(links@) =~~= item_links_of(u@, kvs.take(i + 1)));
                    }
                },
                None => {},
            }
        }
        proof {
            assert(kvs.take(k as int) =~~= kvs);
        }
        let body = Self::join_lines(&lines);
        let heading = self.sub_heading(ct);
        let mut s = heading;
        proof {
            reveal_strlit("\n");
            assert("\n"@ =~~= nl());
        }
        s.append("\n");
        s.append(body.as_str());
        s.append("\n");
        proof {
            assert(kvs.len() > 0);
            assert(s@ =~~= sub_heading_text(conf, ct@) + nl() + join_with(
                item_lines_of(conf, urlp, kvs),
                nl(),
            ) + nl());
        }
        (Some(s), links)
    }

    /// A bucket's heading and, when linked, its reference link.
    fn heading(&self, url: Option<&GithubUrl>, range: &ReleaseRange) -> (r: (String, Option<String>))
        ensures
            r.0@ == heading_text(self.conf_view(), url is Some, range@),
            match url {
                Some(u) => r.1 matches Some(l) && l@ == heading_link(u@, range@),
                None => r.1 is None,
            },
    {
        proof {
            reveal_strlit(" ");
            reveal_strlit("[");
            reveal_strlit("] - ");
            reveal_strlit(" - ");
            reveal_strlit("]");
            reveal_strlit("]: ");
            reveal_strlit("Unreleased");
            assert(" "@ =~~= seq![' ']);
            assert("["@ =~~= seq!['[']);
            assert("] - "@ =~~= seq![']', ' ', '-', ' ']);
            assert(" - "@ =~~= seq![' ', '-', ' ']);
            assert("]"@ =~~= seq![']']);
            assert("]: "@ =~~= seq![']', ':', ' ']);
            assert("Unreleased"@ =~~= unreleased_label());
        }
        let urlp = match url {
            Some(_) => true,
            None => false,
        };
        let subject: String = match range {
            ReleaseRange::Release(_, e) => {
                let nm = e.name();
                let dt = e.date();
                if urlp {
                    let mut s = String::from_str("[");
                    s.append(nm.as_str());
                    s.append("] - ");
                    s.append(dt.as_str());
                    s
                } else {
                    let mut s = nm;
                    s.append(" - ");
                    s.append(dt.as_str());
                    s
                }
            },
            ReleaseRange::UnRelease(_) => {
                if urlp {
                    let mut s = String::from_str("[");
                    s.append("Unreleased");
                    s.append("]");
                    s
                } else {
                    String::from_str("Unreleased")
                }
            },
        };
        proof {
            assert(subject@ =~~= heading_subject(urlp, range@));
        }
        let mut h = repeat_char('#', self.conf.root_indent_level as usize);
        h.append(" ");
        h.append(subject.as_str());
        proof {
            assert(h@ =~~= heading_text(self.conf_view(), urlp, range@));
        }
        let link: Option<String> = match url {
            Some(u) => {
                match range {
                    ReleaseRange::Release(s0, e0) => {
                        let mut l = String::from_str("[");
                        let nm = e0.name();
                        l.append(nm.as_str());
                        l.append("]: ");
                        let cl = u.compare(s0, Some(e0));
                        l.append(cl.as_str());
                        proof {
                            assert(l@ =~~= heading_link(u@, range@));
                        }
                        Some(l)
                    },
                    ReleaseRange::UnRelease(s0) => {
                        let mut l = String::from_str("[");
                        l.append("Unreleased");
                        l.append("]: ");
                        let cl = u.compare(s0, None);
                        l.append(cl.as_str());
                        proof {
                            assert(l@ =~~= heading_link(u@, range@));
                        }
                        Some(l)
                    },
                }
            },
            None => None,
        };
        (h, link)
    }

    /// A bucket's body and its reference links.
    fn contents(&self, url: Option<&GithubUrl>, groups: &Vec<(CommitType, Vec<Commit>)>) -> (r: (
        String,
        Vec<String>,
    ))
        ensures
            ({
                let conf = self.conf_view();
                let gv = grouped_view(groups@);
                let urlp = url is Some;
                &&& r.0@ == bucket_body(conf, urlp, gv)
                &&& strings_view(r.1@) == (match url {
                    Some(u) => bucket_item_links(conf, u@, urlp, gv),
                    None => Seq::<Seq<char>>::empty(),
                })
            }),
    {
        let ghost conf = self.conf_view();
        let ghost gv = grouped_view(groups@);
        let urlp = match url {
            Some(_) => true,
            None => false,
        };
        let mut texts: Vec<String> = Vec::new();
        let mut links: Vec<String> = Vec::new();
        let n = groups.len();
        proof {
            assert(gv.take(0) =~~= Seq::<(CommitTypeView, Seq<CommitView>)>::empty());
            assert(strings_view(texts@) =~~= bucket_sections(conf, urlp, gv.take(0)));
            assert(strings_view(links@) =~~= Seq::<Seq<char>>::empty());
        }
        for i in it: 0..n
            invariant
                n == groups@.len(),
                conf == self.conf_view(),
                gv == grouped_view(groups@),
                urlp == (url is Some),
                strings_view(texts@) =~~= bucket_sections(conf, urlp, gv.take(i as int)),
                strings_view(links@) =~~= (match url {
                    Some(u) => bucket_item_links(conf, u@, urlp, gv.take(i as int)),
                    None => Seq::<Seq<char>>::empty(),
                }),
        {
            proof {
                assert(gv.take(i + 1).drop_last() =~~= gv.take(i as int));
                assert(gv.take(i + 1).last() == gv[i as int]);
                assert(gv[i as int] == (groups@[i as int].0@, commits_view(groups@[i as int].1@)));
            }
            let (sec, mut slinks) = self.section(url, &groups[i].0, &groups[i].1);
            match sec {
                Some(s) => {
                    texts.push(s);
                    proof {
                        assert(strings_view(texts@) =~~= bucket_sections(conf, urlp, gv.take(i + 1)));
                    }
                    let m = slinks.len();
                    let ghost links0 = strings_view(links@);
                    let ghost sl = strings_view(slinks@);
                    let mut j: usize = 0;
                    while j < m
                        invariant
                            m == slinks@.len(),
                            j <= m,
                            sl == strings_view(slinks@),
                            strings_view(links@) =~~= links0 + sl.take(j as int),
                        decreases m - j,
                    {
                        links.push(slinks[j].clone());
                        proof {
                            assert(sl[j as int] == slinks@[j as int]@);
                            assert(sl.take(j + 1) =~~= sl.take(j as int).push(sl[j as int]));
                            assert((links0 + sl.take(j as int)).push(sl[j as int]) =~~= links0
                                + sl.take(j + 1));
                            assert(strings_view(links@) =~~= links0 + sl.take(j + 1));
                        }
                        j = j + 1;
                    }
                    proof {
                        assert(sl.take(m as int) =~~= sl);
                        assert(strings_view(links@) =~~= (match url {
                            Some(u) => bucket_item_links(conf, u@, urlp, gv.take(i + 1)),
                            None => Seq::<Seq<char>>::empty(),
                        }));
                    }
                },
                None => {
                    proof {
                        assert(strings_view(texts@) =~~= bucket_sections(conf, urlp, gv.take(i + 1)));
                        assert(strings_view(links@) =~~= (match url {
                            Some(u) => bucket_item_links(conf, u@, urlp, gv.take(i + 1)),
                            None => Seq::<Seq<char>>::empty(),
                        }));
                    }
                },
            }
        }
        proof {
            assert(gv.take(n as int) =~~= gv);
        }
        let body = Self::join_lines(&texts);
        (body, links)
    }

    /// Render the history: one heading per release bucket, sections per
    /// change kind, and a reference-link block when a remote is known.
    /// Buckets whose every commit was filtered away are omitted whole.
    pub fn markdown(&self, url: Option<&GithubUrl>, commits: &Commits) -> (r: Result<String, crate::Error>)
        ensures
            r matches Ok(s) && s@ == markdown_spec(self.conf_view(), match url {
                Some(u) => Some(u@),
                None => None,
            }, partition_spec(
                commits.commit_views(),
                self.conf_view().tag_prefix,
                crate::commit::prev_obj_spec(commits.prev_view()),
            )),
    {
        let ghost conf = self.conf_view();
        let urlp = match url {
            Some(_) => true,
            None => false,
        };
        let buckets = match &self.conf.tag_prefix {
            Some(p) => commits.group_by(Some(p.as_str())),
            None => commits.group_by(None),
        };
        let ghost bv = crate::commit::partition_view(buckets@);
        proof {
            assert(bv == partition_spec(
                commits.commit_views(),
                conf.tag_prefix,
                crate::commit::prev_obj_spec(commits.prev_view()),
            ));
        }
        let mut texts: Vec<String> = Vec::new();
        let mut links: Vec<String> = Vec::new();
        let n = buckets.len();
        proof {
            assert(bv.take(0) =~~= Seq::<(RangeView, Seq<(CommitTypeView, Seq<CommitView>)>)>::empty());
            assert(strings_view(texts@) =~~= all_bucket_texts(conf, urlp, bv.take(0)));
            assert(strings_view(links@) =~~= Seq::<Seq<char>>::empty());
        }
        for i in it: 0..n
            invariant
                n == buckets@.len(),
                conf == self.conf_view(),
                bv == crate::commit::partition_view(buckets@),
                urlp == (url is Some),
                strings_view(texts@) =~~= all_bucket_texts(conf, urlp, bv.take(i as int)),
                strings_view(links@) =~~= (match url {
                    Some(u) => all_links(conf, u@, bv.take(i as int)),
                    None => Seq::<Seq<char>>::empty(),
                }),
        {
            proof {
                assert(bv.take(i + 1).drop_last() =~~= bv.take(i as int));
                assert(bv.take(i + 1).last() == bv[i as int]);
                assert(bv[i as int] == (buckets@[i as int].0@, grouped_view(buckets@[i as int].1@)));
            }
            let (body, mut blinks) = self.contents(url, &buckets[i].1);
            if body.as_str().unicode_len() == 0 {
                proof {
                    assert(bucket_body(conf, urlp, bv[i as int].1).len() == 0);
                    assert(bucket_text(conf, urlp, bv[i as int]) is None);
                    if urlp {
                        assert(bucket_body(conf, true, bv[i as int].1).len() == 0);
                        assert(bucket_text(conf, true, bv[i as int]) is None);
                    }
                    assert(strings_view(texts@) =~~= all_bucket_texts(conf, urlp, bv.take(i + 1)));
                    assert(strings_view(links@) =~~= (match url {
                        Some(u) => all_links(conf, u@, bv.take(i + 1)),
                        None => Seq::<Seq<char>>::empty(),
                    }));
                }
            } else {
                let (htext, hlink) = self.heading(url, &buckets[i].0);
                let mut s = htext;
                proof {
                    reveal_strlit("\n");
                    assert("\n"@ =~~= nl());
                }
                s.append("\n");
                s.append(body.as_str());
                texts.push(s);
                proof {
                    assert(bucket_body(conf, urlp, bv[i as int].1).len() > 0);
                    assert(strings_view(texts@) =~~= all_bucket_texts(conf, urlp, bv.take(i + 1)));
                }
                match hlink {
                    Some(l) => {
                        links.push(l);
                    },
                    None => {},
                }
                let m = blinks.len();
                let ghost links0 = strings_view(links@);
                let ghost blv = strings_view(blinks@);
                let mut j: usize = 0;
                while j < m
                    invariant
                        m == blinks@.len(),
                        j <= m,
                        blv == strings_view(blinks@),
                        strings_view(links@) =~~= links0 + blv.take(j as int),
                    decreases m - j,
                {
                    links.push(blinks[j].clone());
                    proof {
                        assert(blv[j as int] == blinks@[j as int]@);
                        assert(blv.take(j + 1) =~~= blv.take(j as int).push(blv[j as int]));
                        assert((links0 + blv.take(j as int)).push(blv[j as int]) =~~= links0
                            + blv.take(j + 1));
                        assert(strings_view(links@) =~~= links0 + blv.take(j + 1));
                    }
                    j = j + 1;
                }
                proof {
                    assert(blv.take(m as int) =~~= blv);
                    if urlp {
                        assert(bucket_body(conf, true, bv[i as int].1).len() > 0);
                        assert(bucket_text(conf, true, bv[i as int]) is Some);
                    }
                    assert(strings_view(links@) =~~= (match url {
                        Some(u) => all_links(conf, u@, bv.take(i + 1)),
                        None => Seq::<Seq<char>>::empty(),
                    }));
                }
            }
        }
        proof {
            assert(bv.take(n as int) =~~= bv);
        }
        let body = Self::join_lines(&texts);
        match url {
            Some(_) => {
                if links.len() == 0 {
                    proof {
                        assert(body@ =~~= markdown_spec(conf, match url {
                            Some(u) => Some(u@),
                            None => None,
                        }, bv));
                    }
                    Ok(body)
                } else {
                    let mut s = body;
                    proof {
                        reveal_strlit("\n");
                        assert("\n"@ =~~= nl());
                    }
                    s.append("\n");
                    let lk = Self::join_lines(&links);
                    s.append(lk.as_str());
                    s.append("\n");
                    proof {
                        assert(s@ =~~= markdown_spec(conf, match url {
                            Some(u) => Some(u@),
                            None => None,
                        }, bv));
                    }
                    Ok(s)
                }
            },
            None => {
                proof {
                    assert(body@ =~~= markdown_spec(conf, None, bv));
                }
                Ok(body)
            },
        }
    }
}

} // verus!
