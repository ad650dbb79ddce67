//! A changelog core: it parses version tags, resolves a tag-naming scheme,
//! classifies conventional-commit messages, and partitions an ordered commit
//! history into release buckets rendered as markdown.

use vstd::prelude::*;
use vstd::string::*;

pub mod changelog;
pub mod commit;
pub mod conventional_commit;
pub mod github_url;
pub mod semver;
pub mod strutil;
pub mod version;

verus! {

/// The failures the core reports, each carrying the offending input.
#[derive(Debug, PartialEq, Eq)]
pub enum Error {
    /// A tag string held no trailing semantic-version form.
    NotASemanticVersion(String),
    /// Several tag-naming prefixes coexist and none could be preferred;
    /// holds one offending prefix so the caller can filter explicitly.
    AmbiguousVersionScheme(String),
    /// An explicit revision spec was not a two-endpoint range.
    UnsupportedRevisionSpec(String),
}

impl Error {
    /// The failure spelled out for a reader, with the offending input.
    pub fn message(&self) -> (r: String)
        ensures
            match self {
                Error::NotASemanticVersion(t) => r@ == not_semver_message() + t@,
                Error::AmbiguousVersionScheme(p) => r@ == ambiguous_message() + p@,
                Error::UnsupportedRevisionSpec(s) => r@ == unsupported_spec_message() + s@,
            },
    {
        proof {
            reveal_strlit("Can't find semver format. value: ");
            reveal_strlit(
                "There are two or more semantic version styles. Please specify the tag-prefix option. ex) --tag-prefix=",
            );
            reveal_strlit("Don't support mode. Supported mode is only range(two-dot). value: ");
        }
        match self {
            Error::NotASemanticVersion(t) => {
                let mut r = String::from_str("Can't find semver format. value: ");
                r.append(t.as_str());
                proof {
                    assert(r@ =~= not_semver_message() + t@);
                }
                r
            },
            Error::AmbiguousVersionScheme(p) => {
                let mut r = String::from_str(
                    "There are two or more semantic version styles. Please specify the tag-prefix option. ex) --tag-prefix=",
                );
                r.append(p.as_str());
                proof {
                    assert(r@ =~= ambiguous_message() + p@);
                }
                r
            },
            Error::UnsupportedRevisionSpec(s) => {
                let mut r = String::from_str(
                    "Don't support mode. Supported mode is only range(two-dot). value: ",
                );
                r.append(s.as_str());
                proof {
                    assert(r@ =~= unsupported_spec_message() + s@);
                }
                r
            },
        }
    }
}

pub open spec fn not_semver_message() -> Seq<char> {
    "Can't find semver format. value: "@
}

pub open spec fn ambiguous_message() -> Seq<char> {
    "There are two or more semantic version styles. Please specify the tag-prefix option. ex) --tag-prefix="@
}

pub open spec fn unsupported_spec_message() -> Seq<char> {
    "Don't support mode. Supported mode is only range(two-dot). value: "@
}

/// One commit as the version-control collaborator hands it over: plain
/// values only. The time is seconds since the Unix epoch; `tag_name`
/// is set when a tag points exactly at this commit.
#[derive(Debug)]
pub struct CommitRecord {
    pub hash: String,
    pub message: String,
    pub author: String,
    pub timestamp: i64,
    pub parent_count: usize,
    pub tag_name: Option<String>,
}

#[verifier::ext_equal]
pub ghost struct CommitRecordView {
    pub hash: Seq<char>,
    pub message: Seq<char>,
    pub author: Seq<char>,
    pub timestamp: int,
    pub parent_count: int,
    pub tag_name: Option<Seq<char>>,
}

impl View for CommitRecord {
    type V = CommitRecordView;

    open spec fn view(&self) -> CommitRecordView {
        CommitRecordView {
            hash: self.hash@,
            message: self.message@,
            author: self.author@,
            timestamp: self.timestamp as int,
            parent_count: self.parent_count as int,
            tag_name: match self.tag_name {
                Some(ref t) => Some(t@),
                None => None,
            },
        }
    }
}

/// What a raw record denotes once classified and its tag parsed: the
/// summary is the message's first line, the commit is classified under
/// the conventional-commit grammar, and an unparseable tag counts as
/// no tag.
pub open spec fn record_commit(r: CommitRecordView) -> commit::CommitView {
    commit::CommitView {
        id: r.hash,
        summary: conventional_commit::summary_of(r.message),
        author: commit::author_spec(r.author),
        datetime: r.timestamp,
        parent_count: r.parent_count,
        cc: if conventional_commit::parse_summary(conventional_commit::summary_of(r.message))
            is Some {
            Some(conventional_commit::classify_spec(r.message))
        } else {
            None
        },
        obj: match r.tag_name {
            Some(t) => if version::valid_tag(t) {
                Some(
                    commit::NamableView::Tag {
                        version: version::tag_version(t),
                        datetime: r.timestamp,
                    },
                )
            } else {
                None
            },
            None => None,
        },
    }
}

pub open spec fn records_view(rs: Seq<CommitRecord>) -> Seq<commit::CommitView> {
    rs.map_values(|r: CommitRecord| record_commit(r@))
}

proof fn lemma_records_view_push(rs: Seq<CommitRecord>, r: CommitRecord)
    ensures
        records_view(rs.push(r)) == records_view(rs).push(record_commit(r@)),
{
    assert(records_view(rs.push(r)) =~~= records_view(rs).push(record_commit(r@)));
}

/// Whether the walk keeps a commit under the merge policy: merge
/// commits (more than one parent) stay out unless asked for.
pub open spec fn merge_kept(include_merges: bool, c: commit::CommitView) -> bool {
    include_merges || c.parent_count <= 1
}

/// The commits the walk hands to the partitioner: the records as
/// classified commits, merge commits dropped under the policy.
pub open spec fn walked_commits(rs: Seq<CommitRecord>, include_merges: bool) -> Seq<
    commit::CommitView,
> {
    records_view(rs).filter(|c: commit::CommitView| merge_kept(include_merges, c))
}

/// Turn one raw record into a commit: classify its message and parse
/// its tag, treating an unparseable tag as none.
pub fn build_commit(rec: CommitRecord) -> (r: commit::Commit)
    ensures
        r@ == record_commit(rec@),
{
    let m_len = rec.message.as_str().unicode_len();
    let nl = strutil::find_char_from(rec.message.as_str(), m_len, 0, '\n');
    proof {
        strutil::lemma_find_from(rec.message@, 0, '\n');
    }
    let summary = rec.message.as_str().substring_char(0, nl);
    proof {
        assert(summary@ =~= conventional_commit::summary_of(rec.message@));
    }
    let cc = conventional_commit::ConventionalCommits::parse(rec.message.as_str());
    let obj: Option<commit::NamableObj> = match &rec.tag_name {
        Some(t) => match commit::NamableObj::new(t.as_str(), rec.timestamp) {
            Ok(o) => Some(o),
            Err(_) => None,
        },
        None => None,
    };
    let c = commit::Commit::new(
        rec.hash,
        summary,
        rec.author.as_str(),
        rec.timestamp,
        rec.parent_count,
        cc,
        obj,
    );
    proof {
        assert(c@ =~~= record_commit(rec@));
    }
    c
}

/// The whole core in one call: classify and tag the raw records, drop
/// merge commits under the policy, partition the rest into release
/// buckets against the boundary record, and render the markdown under
/// the given options and remote.
pub fn run(
    boundary: CommitRecord,
    records: Vec<CommitRecord>,
    config: changelog::Config,
    remote_url: Option<String>,
) -> (r: Result<String, Error>)
    ensures
        r matches Ok(s) && s@ == changelog::markdown_spec(
            config@,
            match remote_url {
                Some(u) => Some(github_url::git2http_spec(u@)),
                None => None,
            },
            commit::partition_spec(
                walked_commits(records@, config@.include_merge_commits),
                config@.tag_prefix,
                commit::prev_obj_spec(record_commit(boundary@)),
            ),
        ),
{
    let ghost confv = config@;
    let include_merges = config.include_merge_commits;
    let ghost pred = |c: commit::CommitView| merge_kept(include_merges, c);
    let prev = build_commit(boundary);
    let mut commits_vec: Vec<commit::Commit> = Vec::new();
    let n = records.len();
    let mut rest = records;
    let ghost rest0 = rest@;
    proof {
        assert(records_view(rest0.take(0)) =~~= Seq::<commit::CommitView>::empty());
        reveal(Seq::filter);
        assert(commit::commits_view(commits_vec@) =~~= walked_commits(
            rest0.take(0),
            include_merges,
        ));
    }
    let mut i: usize = 0;
    while i < n
        invariant
            n == rest0.len(),
            rest@ == rest0.skip(i as int),
            i <= n,
            include_merges == confv.include_merge_commits,
            pred == (|c: commit::CommitView| merge_kept(include_merges, c)),
            commit::commits_view(commits_vec@) =~~= walked_commits(
                rest0.take(i as int),
                include_merges,
            ),
        decreases n - i,
    {
        let rec = rest.remove(0);
        proof {
            assert(rec == rest0.skip(i as int)[0]);
            assert(rec == rest0[i as int]);
            assert(rest@ =~= rest0.skip(i + 1));
            assert(rest0.take(i + 1) =~= rest0.take(i as int).push(rest0[i as int]));
            lemma_records_view_push(rest0.take(i as int), rest0[i as int]);
            assert(records_view(rest0.take(i + 1)).drop_last() =~= records_view(
                rest0.take(i as int),
            ));
            assert(records_view(rest0.take(i + 1)).last() == record_commit(rest0[i as int]@));
            reveal(Seq::filter);
        }
        let keep_it = include_merges || rec.parent_count <= 1;
        if keep_it {
            let c = build_commit(rec);
            commits_vec.push(c);
            proof {
                assert(commit::commits_view(commits_vec@) =~~= walked_commits(
                    rest0.take(i + 1),
                    include_merges,
                ));
            }
        } else {
            proof {
                assert(!merge_kept(include_merges, record_commit(rest0[i as int]@)));
                assert(commit::commits_view(commits_vec@) =~~= walked_commits(
                    rest0.take(i + 1),
                    include_merges,
                ));
            }
        }
        i = i + 1;
    }
    proof {
        assert(rest0.take(n as int) =~= rest0);
    }
    let commits = commit::Commits::new(prev, commits_vec);
    let url: Option<github_url::GithubUrl> = match &remote_url {
        Some(u) => Some(github_url::GithubUrl::new(u.as_str())),
        None => None,
    };
    let log = changelog::Changelog::from(config);
    let md = match &url {
        Some(u) => log.markdown(Some(u), &commits),
        None => log.markdown(None, &commits),
    };
    md
}

} // verus!
