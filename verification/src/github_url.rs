//! Turning a remote URL into a browsable base address, and building
//! compare and commit links from it.

use vstd::prelude::*;
use vstd::string::*;

use crate::commit::Commit;
use crate::commit::NamableObj;
use crate::commit::NamableView;
use crate::commit::namable_name;
use crate::strutil::find_from;
use crate::strutil::lemma_find_from;
use crate::strutil::find_char_from;
use crate::strutil::matches_at;
use crate::strutil::check_matches_at;

verus! {

// ---------------------------------------------------------------------------
// Recognizing the two remote-URL shapes
// ---------------------------------------------------------------------------

pub open spec fn http_scheme_len(s: Seq<char>) -> int {
    if seq!['h', 't', 't', 'p', 's', ':', '/', '/'].is_prefix_of(s) {
        8
    } else if seq!['h', 't', 't', 'p', ':', '/', '/'].is_prefix_of(s) {
        7
    } else {
        0
    }
}

pub open spec fn ends_with_git(s: Seq<char>) -> bool {
    matches_at(s, s.len() - 4, seq!['.', 'g', 'i', 't'])
}

/// A `http(s)://host/repo.git` URL: a scheme, a non-empty host up to
/// the first slash, a non-empty repository path, and the `.git` suffix.
pub open spec fn http_match(s: Seq<char>) -> bool {
    let sch = http_scheme_len(s);
    let h = find_from(s, sch, '/');
    sch > 0 && h < s.len() && h > sch && ends_with_git(s) && h + 1 < s.len() - 4
}

/// The browsable form of a matched `http(s)` URL: the text with the
/// `.git` suffix cut off.
pub open spec fn http_result(s: Seq<char>) -> Seq<char> {
    s.take(s.len() - 4)
}

pub open spec fn git_at(s: Seq<char>) -> int {
    if seq!['s', 's', 'h', ':', '/', '/'].is_prefix_of(s) {
        6
    } else {
        0
    }
}

/// Where the host of a `git@` URL ends: the first `/` or `:` after the
/// user part.
pub open spec fn git_host_end(s: Seq<char>, base: int) -> int {
    let a = find_from(s, base, '/');
    let b = find_from(s, base, ':');
    if a < b {
        a
    } else {
        b
    }
}

/// A `(ssh://)git@host(/|:)repo.git` URL.
pub open spec fn git_match(s: Seq<char>) -> bool {
    let base = git_at(s) + 4;
    let sep = git_host_end(s, base);
    matches_at(s, git_at(s), seq!['g', 'i', 't', '@']) && sep < s.len() && sep > base
        && ends_with_git(s) && sep + 1 < s.len() - 4
}

/// The browsable form of a matched `git@` URL.
pub open spec fn git_result(s: Seq<char>) -> Seq<char> {
    let base = git_at(s) + 4;
    let sep = git_host_end(s, base);
    seq!['h', 't', 't', 'p', 's', ':', '/', '/'] + s.subrange(base, sep) + seq!['/'] + s.subrange(
        sep + 1,
        s.len() - 4,
    )
}

/// What a remote URL becomes: the `http(s)` shape wins, then the
/// `git@` shape, and anything else stays as it came.
pub open spec fn git2http_spec(s: Seq<char>) -> Seq<char> {
    if http_match(s) {
        http_result(s)
    } else if git_match(s) {
        git_result(s)
    } else {
        s
    }
}

/// Decide `ends_with_git`.
fn ends_with_git_exec(s: &str, s_len: usize) -> (r: bool)
    requires
        s_len == s@.len(),
    ensures
        r == ends_with_git(s@),
{
    proof {
        reveal_strlit(".git");
        assert(".git"@ =~= seq!['.', 'g', 'i', 't']);
    }
    if s_len < 4 {
        proof {
            if ends_with_git(s@) {
            }
        }
        return false;
    }
    check_matches_at(s, s_len, s_len - 4, ".git")
}

/// Rewrite a remote URL into its browsable base address.
fn git2http(url: &str) -> (r: String)
    ensures
        r@ == git2http_spec(url@),
{
    let s_len = url.unicode_len();
    proof {
        reveal_strlit("https://");
        reveal_strlit("http://");
        reveal_strlit("ssh://");
        reveal_strlit("git@");
        reveal_strlit("/");
        assert("https://"@ =~= seq!['h', 't', 't', 'p', 's', ':', '/', '/']);
        assert("http://"@ =~= seq!['h', 't', 't', 'p', ':', '/', '/']);
        assert("ssh://"@ =~= seq!['s', 's', 'h', ':', '/', '/']);
        assert("git@"@ =~= seq!['g', 'i', 't', '@']);
    }
    let has_https = check_matches_at(url, s_len, 0, "https://");
    let has_http = if has_https {
        false
    } else {
        check_matches_at(url, s_len, 0, "http://")
    };
    proof {
        if matches_at(url@, 0, "https://"@) {
            assert("https://"@.is_prefix_of(url@));
        }
        if matches_at(url@, 0, "http://"@) {
            assert("http://"@.is_prefix_of(url@));
        }
        if "https://"@.is_prefix_of(url@) {
            assert(url@.subrange(0, 8) =~= "https://"@);
        }
        if "http://"@.is_prefix_of(url@) {
            assert(url@.subrange(0, 7) =~= "http://"@);
        }
    }
    let sch: usize = if has_https {
        8
    } else if has_http {
        7
    } else {
        0
    };
    assert(sch as int == http_scheme_len(url@));
    if sch > 0 {
        let h = find_char_from(url, s_len, sch, '/');
        proof {
            lemma_find_from(url@, sch as int, '/');
        }
        if h < s_len && h > sch && ends_with_git_exec(url, s_len) && h + 1 < s_len - 4 {
            assert(http_match(url@));
            let r = url.substring_char(0, s_len - 4).to_owned();
            proof {
                assert(r@ =~= http_result(url@));
            }
            return r;
        }
    }
    assert(!http_match(url@));
    let has_ssh = check_matches_at(url, s_len, 0, "ssh://");
    proof {
        if matches_at(url@, 0, "ssh://"@) {
            assert("ssh://"@.is_prefix_of(url@));
        }
        if "ssh://"@.is_prefix_of(url@) {
            assert(url@.subrange(0, 6) =~= "ssh://"@);
        }
    }
    let g0: usize = if has_ssh {
        6
    } else {
        0
    };
    assert(g0 as int == git_at(url@));
    if check_matches_at(url, s_len, g0, "git@") {
        let base = g0 + 4;
        let a = find_char_from(url, s_len, base, '/');
        let b = find_char_from(url, s_len, base, ':');
        proof {
            lemma_find_from(url@, base as int, '/');
            lemma_find_from(url@, base as int, ':');
        }
        let sep = if a < b {
            a
        } else {
            b
        };
        assert(sep as int == git_host_end(url@, base as int));
        if sep < s_len && sep > base && ends_with_git_exec(url, s_len) && sep + 1 < s_len - 4 {
            assert(git_match(url@));
            let mut r = String::from_str("https://");
            let host = url.substring_char(base, sep);
            r.append(host);
            r.append("/");
            let repo = url.substring_char(sep + 1, s_len - 4);
            r.append(repo);
            proof {
                assert("/"@ =~= seq!['/']);
                assert(r@ =~= git_result(url@));
            }
            return r;
        }
    }
    assert(!git_match(url@));
    url.to_owned()
}

// ---------------------------------------------------------------------------
// The link builder
// ---------------------------------------------------------------------------

/// A repository's browsable base address, from which compare and
/// commit links are formed.
#[derive(Debug, PartialEq, Eq)]
pub struct GithubUrl {
    base_url: String,
}

impl View for GithubUrl {
    type V = Seq<char>;

    closed spec fn view(&self) -> Seq<char> {
        self.base_url@
    }
}

pub open spec fn head_label() -> Seq<char> {
    seq!['H', 'E', 'A', 'D']
}

/// The compare link between two named points, the open end shown as
/// the head.
pub open spec fn compare_link(base: Seq<char>, start: NamableView, end: Option<NamableView>) -> Seq<
    char,
> {
    base + seq!['/', 'c', 'o', 'm', 'p', 'a', 'r', 'e', '/'] + namable_name(start) + seq![
        '.',
        '.',
        '.',
    ] + (match end {
        Some(e) => namable_name(e),
        None => head_label(),
    })
}

/// The link to one commit.
pub open spec fn commit_link(base: Seq<char>, id: Seq<char>) -> Seq<char> {
    base + seq!['/', 'c', 'o', 'm', 'm', 'i', 't', '/'] + id
}

impl GithubUrl {
    /// Build the base address from a remote URL.
    pub fn new(url: &str) -> (r: GithubUrl)
        ensures
            r@ == git2http_spec(url@),
    {
        GithubUrl { base_url: git2http(url) }
    }

    /// The base address itself.
    pub fn base(&self) -> (r: &str)
        ensures
            r@ == self@,
    {
        self.base_url.as_str()
    }

    /// The compare link from `start` up to `end`, or to the head.
    pub fn compare(&self, start: &NamableObj, end: Option<&NamableObj>) -> (r: String)
        ensures
            r@ == compare_link(self@, start@, match end {
                Some(e) => Some(e@),
                None => None,
            }),
    {
        proof {
            reveal_strlit("/compare/");
            reveal_strlit("...");
            reveal_strlit("HEAD");
            assert("/compare/"@ =~= seq!['/', 'c', 'o', 'm', 'p', 'a', 'r', 'e', '/']);
            assert("..."@ =~= seq!['.', '.', '.']);
            assert("HEAD"@ =~= head_label());
        }
        let mut r = self.base_url.clone();
        r.append("/compare/");
        let sname = start.name();
        r.append(sname.as_str());
        r.append("...");
        match end {
            Some(e) => {
                let ename = e.name();
                r.append(ename.as_str());
            },
            None => {
                r.append("HEAD");
            },
        }
        r
    }

    /// The link to one commit.
    pub fn commit(&self, commit: &Commit) -> (r: String)
        ensures
            r@ == commit_link(self@, commit@.id),
    {
        proof {
            reveal_strlit("/commit/");
            assert("/commit/"@ =~= seq!['/', 'c', 'o', 'm', 'm', 'i', 't', '/']);
        }
        let mut r = self.base_url.clone();
        r.append("/commit/");
        let h = commit.hash();
        r.append(h.as_str());
        r
    }
}

} // verus!
