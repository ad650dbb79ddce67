//! Classifying commit messages under the conventional-commit grammar
//! `type(scope)?!?: description`, with a total fallback for messages
//! that do not conform.

use vstd::prelude::*;
use vstd::string::*;

use crate::strutil::find_from;
use crate::strutil::lemma_find_from;
use crate::strutil::find_char_from;
use crate::strutil::matches_at;
use crate::strutil::check_matches_at;

verus! {

// ---------------------------------------------------------------------------
// The kind of a change
// ---------------------------------------------------------------------------

/// The classified kind of a commit: the fixed canonical kinds, a
/// payload-carrying kind for any other token, and a fallback for
/// non-conforming messages.
#[derive(Debug, PartialEq, Eq, Hash)]
pub enum CommitType {
    Feat,
    Fix,
    Build,
    Doc,
    Chore,
    Ci,
    Style,
    Refactor,
    Perf,
    Test,
    Revert,
    Security,
    Custom(String),
    Others,
}

#[verifier::ext_equal]
pub ghost enum CommitTypeView {
    Feat,
    Fix,
    Build,
    Doc,
    Chore,
    Ci,
    Style,
    Refactor,
    Perf,
    Test,
    Revert,
    Security,
    Custom(Seq<char>),
    Others,
}

impl View for CommitType {
    type V = CommitTypeView;

    open spec fn view(&self) -> CommitTypeView {
        match self {
            CommitType::Feat => CommitTypeView::Feat,
            CommitType::Fix => CommitTypeView::Fix,
            CommitType::Build => CommitTypeView::Build,
            CommitType::Doc => CommitTypeView::Doc,
            CommitType::Chore => CommitTypeView::Chore,
            CommitType::Ci => CommitTypeView::Ci,
            CommitType::Style => CommitTypeView::Style,
            CommitType::Refactor => CommitTypeView::Refactor,
            CommitType::Perf => CommitTypeView::Perf,
            CommitType::Test => CommitTypeView::Test,
            CommitType::Revert => CommitTypeView::Revert,
            CommitType::Security => CommitTypeView::Security,
            CommitType::Custom(s) => CommitTypeView::Custom(s@),
            CommitType::Others => CommitTypeView::Others,
        }
    }
}

/// The fixed display rank: canonical kinds first in their canonical
/// order, then every custom kind, then the fallback last.
pub open spec fn rank(t: CommitTypeView) -> int {
    match t {
        CommitTypeView::Feat => 0,
        CommitTypeView::Fix => 1,
        CommitTypeView::Build => 2,
        CommitTypeView::Doc => 3,
        CommitTypeView::Chore => 4,
        CommitTypeView::Ci => 5,
        CommitTypeView::Style => 6,
        CommitTypeView::Refactor => 7,
        CommitTypeView::Perf => 8,
        CommitTypeView::Test => 9,
        CommitTypeView::Revert => 10,
        CommitTypeView::Security => 11,
        CommitTypeView::Custom(_) => 12,
        CommitTypeView::Others => 13,
    }
}

/// The code point of `c` with an ASCII capital folded to lower case.
pub open spec fn lower_code(c: char) -> int {
    if 'A' <= c && c <= 'Z' {
        c as int + 32
    } else {
        c as int
    }
}

/// Case-insensitive match of a token against a lower-case name.
pub open spec fn eqi(t: Seq<char>, name: Seq<char>) -> bool {
    t.len() == name.len() && forall|i: int|
        0 <= i < t.len() ==> lower_code(t[i]) == (#[trigger] name[i]) as int
}

/// The kind a type token denotes, matched case-insensitively.
pub open spec fn token_type(t: Seq<char>) -> CommitTypeView {
    if eqi(t, seq!['f', 'e', 'a', 't']) {
        CommitTypeView::Feat
    } else if eqi(t, seq!['f', 'i', 'x']) {
        CommitTypeView::Fix
    } else if eqi(t, seq!['b', 'u', 'i', 'l', 'd']) {
        CommitTypeView::Build
    } else if eqi(t, seq!['d', 'o', 'c']) {
        CommitTypeView::Doc
    } else if eqi(t, seq!['c', 'h', 'o', 'r', 'e']) {
        CommitTypeView::Chore
    } else if eqi(t, seq!['c', 'i']) {
        CommitTypeView::Ci
    } else if eqi(t, seq!['s', 't', 'y', 'l', 'e']) {
        CommitTypeView::Style
    } else if eqi(t, seq!['r', 'e', 'f', 'a', 'c', 't', 'o', 'r']) {
        CommitTypeView::Refactor
    } else if eqi(t, seq!['p', 'e', 'r', 'f']) {
        CommitTypeView::Perf
    } else if eqi(t, seq!['t', 'e', 's', 't']) {
        CommitTypeView::Test
    } else if eqi(t, seq!['r', 'e', 'v', 'e', 'r', 't']) {
        CommitTypeView::Revert
    } else if eqi(t, seq!['s', 'e', 'c', 'u', 'r', 'i', 't', 'y']) {
        CommitTypeView::Security
    } else if eqi(t, seq!['o', 't', 'h', 'e', 'r', 's']) {
        CommitTypeView::Others
    } else {
        CommitTypeView::Custom(t)
    }
}

/// Decide `eqi` against a known lower-case name.
fn eqi_exec(t: &str, name: &str) -> (r: bool)
    ensures
        r == eqi(t@, name@),
{
    let t_len = t.unicode_len();
    let n_len = name.unicode_len();
    if t_len != n_len {
        return false;
    }
    for i in it: 0..t_len
        invariant
            t_len == t@.len() && t_len == name@.len(),
            forall|j: int| 0 <= j < i ==> lower_code(t@[j]) == (#[trigger] name@[j]) as int,
    {
        let c = t.get_char(i);
        let lc: u32 = if 'A' <= c && c <= 'Z' {
            c as u32 + 32
        } else {
            c as u32
        };
        if lc != name.get_char(i) as u32 {
            return false;
        }
    }
    true
}

impl CommitType {
    /// Classify a type token; every token yields a kind, unknown ones
    /// becoming custom kinds carrying the token verbatim.
    pub fn parse(s: &str) -> (r: CommitType)
        ensures
            r@ == token_type(s@),
    {
        proof {
            reveal_strlit("feat");
            reveal_strlit("fix");
            reveal_strlit("build");
            reveal_strlit("doc");
            reveal_strlit("chore");
            reveal_strlit("ci");
            reveal_strlit("style");
            reveal_strlit("refactor");
            reveal_strlit("perf");
            reveal_strlit("test");
            reveal_strlit("revert");
            reveal_strlit("security");
            reveal_strlit("others");
            assert("feat"@ =~= seq!['f', 'e', 'a', 't']);
            assert("fix"@ =~= seq!['f', 'i', 'x']);
            assert("build"@ =~= seq!['b', 'u', 'i', 'l', 'd']);
            assert("doc"@ =~= seq!['d', 'o', 'c']);
            assert("chore"@ =~= seq!['c', 'h', 'o', 'r', 'e']);
            assert("ci"@ =~= seq!['c', 'i']);
            assert("style"@ =~= seq!['s', 't', 'y', 'l', 'e']);
            assert("refactor"@ =~= seq!['r', 'e', 'f', 'a', 'c', 't', 'o', 'r']);
            assert("perf"@ =~= seq!['p', 'e', 'r', 'f']);
            assert("test"@ =~= seq!['t', 'e', 's', 't']);
            assert("revert"@ =~= seq!['r', 'e', 'v', 'e', 'r', 't']);
            assert("security"@ =~= seq!['s', 'e', 'c', 'u', 'r', 'i', 't', 'y']);
            assert("others"@ =~= seq!['o', 't', 'h', 'e', 'r', 's']);
        }
        if eqi_exec(s, "feat") {
            CommitType::Feat
        } else if eqi_exec(s, "fix") {
            CommitType::Fix
        } else if eqi_exec(s, "build") {
            CommitType::Build
        } else if eqi_exec(s, "doc") {
            CommitType::Doc
        } else if eqi_exec(s, "chore") {
            CommitType::Chore
        } else if eqi_exec(s, "ci") {
            CommitType::Ci
        } else if eqi_exec(s, "style") {
            CommitType::Style
        } else if eqi_exec(s, "refactor") {
            CommitType::Refactor
        } else if eqi_exec(s, "perf") {
            CommitType::Perf
        } else if eqi_exec(s, "test") {
            CommitType::Test
        } else if eqi_exec(s, "revert") {
            CommitType::Revert
        } else if eqi_exec(s, "security") {
            CommitType::Security
        } else if eqi_exec(s, "others") {
            CommitType::Others
        } else {
            CommitType::Custom(s.to_owned())
        }
    }

    /// A value-equal copy.
    pub fn duplicate(&self) -> (r: CommitType)
        ensures
            r@ == self@,
    {
        match self {
            CommitType::Feat => CommitType::Feat,
            CommitType::Fix => CommitType::Fix,
            CommitType::Build => CommitType::Build,
            CommitType::Doc => CommitType::Doc,
            CommitType::Chore => CommitType::Chore,
            CommitType::Ci => CommitType::Ci,
            CommitType::Style => CommitType::Style,
            CommitType::Refactor => CommitType::Refactor,
            CommitType::Perf => CommitType::Perf,
            CommitType::Test => CommitType::Test,
            CommitType::Revert => CommitType::Revert,
            CommitType::Security => CommitType::Security,
            CommitType::Custom(s) => CommitType::Custom(s.clone()),
            CommitType::Others => CommitType::Others,
        }
    }

    /// Whether two kinds are the same, custom names compared textually.
    pub fn same(&self, other: &CommitType) -> (r: bool)
        ensures
            r == (self@ == other@),
    {
        match (self, other) {
            (CommitType::Feat, CommitType::Feat) => true,
            (CommitType::Fix, CommitType::Fix) => true,
            (CommitType::Build, CommitType::Build) => true,
            (CommitType::Doc, CommitType::Doc) => true,
            (CommitType::Chore, CommitType::Chore) => true,
            (CommitType::Ci, CommitType::Ci) => true,
            (CommitType::Style, CommitType::Style) => true,
            (CommitType::Refactor, CommitType::Refactor) => true,
            (CommitType::Perf, CommitType::Perf) => true,
            (CommitType::Test, CommitType::Test) => true,
            (CommitType::Revert, CommitType::Revert) => true,
            (CommitType::Security, CommitType::Security) => true,
            (CommitType::Custom(a), CommitType::Custom(b)) => crate::strutil::str_eq(
                a.as_str(),
                b.as_str(),
            ),
            (CommitType::Others, CommitType::Others) => true,
            _ => false,
        }
    }

    /// The human heading for this kind: fixed title-case labels for the
    /// canonical kinds, the acronym for the CI kind, and the
    /// sentence-cased token for a custom kind.
    pub fn label(&self) -> (r: String)
        ensures
            r@ == label_of(self@),
    {
        proof {
            reveal_strlit("Feat");
            reveal_strlit("Fix");
            reveal_strlit("Build");
            reveal_strlit("Doc");
            reveal_strlit("Chore");
            reveal_strlit("CI");
            reveal_strlit("Style");
            reveal_strlit("Refactor");
            reveal_strlit("Perf");
            reveal_strlit("Test");
            reveal_strlit("Revert");
            reveal_strlit("Security");
            reveal_strlit("Others");
            assert("Feat"@ =~= seq!['F', 'e', 'a', 't']);
            assert("Fix"@ =~= seq!['F', 'i', 'x']);
            assert("Build"@ =~= seq!['B', 'u', 'i', 'l', 'd']);
            assert("Doc"@ =~= seq!['D', 'o', 'c']);
            assert("Chore"@ =~= seq!['C', 'h', 'o', 'r', 'e']);
            assert("CI"@ =~= seq!['C', 'I']);
            assert("Style"@ =~= seq!['S', 't', 'y', 'l', 'e']);
            assert("Refactor"@ =~= seq!['R', 'e', 'f', 'a', 'c', 't', 'o', 'r']);
            assert("Perf"@ =~= seq!['P', 'e', 'r', 'f']);
            assert("Test"@ =~= seq!['T', 'e', 's', 't']);
            assert("Revert"@ =~= seq!['R', 'e', 'v', 'e', 'r', 't']);
            assert("Security"@ =~= seq!['S', 'e', 'c', 'u', 'r', 'i', 't', 'y']);
            assert("Others"@ =~= seq!['O', 't', 'h', 'e', 'r', 's']);
        }
        match self {
            CommitType::Feat => String::from_str("Feat"),
            CommitType::Fix => String::from_str("Fix"),
            CommitType::Build => String::from_str("Build"),
            CommitType::Doc => String::from_str("Doc"),
            CommitType::Chore => String::from_str("Chore"),
            CommitType::Ci => String::from_str("CI"),
            CommitType::Style => String::from_str("Style"),
            CommitType::Refactor => String::from_str("Refactor"),
            CommitType::Perf => String::from_str("Perf"),
            CommitType::Test => String::from_str("Test"),
            CommitType::Revert => String::from_str("Revert"),
            CommitType::Security => String::from_str("Security"),
            CommitType::Custom(s) => sentence_case(s.as_str()),
            CommitType::Others => String::from_str("Others"),
        }
    }
}

/// What `Inflector::to_sentence_case` returns; it depends on its
/// argument alone.
pub uninterp spec fn sentence_case_of(s: Seq<char>) -> Seq<char>;

/// The heading text of each kind.
pub open spec fn label_of(t: CommitTypeView) -> Seq<char> {
    match t {
        CommitTypeView::Feat => seq!['F', 'e', 'a', 't'],
        CommitTypeView::Fix => seq!['F', 'i', 'x'],
        CommitTypeView::Build => seq!['B', 'u', 'i', 'l', 'd'],
        CommitTypeView::Doc => seq!['D', 'o', 'c'],
        CommitTypeView::Chore => seq!['C', 'h', 'o', 'r', 'e'],
        CommitTypeView::Ci => seq!['C', 'I'],
        CommitTypeView::Style => seq!['S', 't', 'y', 'l', 'e'],
        CommitTypeView::Refactor => seq!['R', 'e', 'f', 'a', 'c', 't', 'o', 'r'],
        CommitTypeView::Perf => seq!['P', 'e', 'r', 'f'],
        CommitTypeView::Test => seq!['T', 'e', 's', 't'],
        CommitTypeView::Revert => seq!['R', 'e', 'v', 'e', 'r', 't'],
        CommitTypeView::Security => seq!['S', 'e', 'c', 'u', 'r', 'i', 't', 'y'],
        CommitTypeView::Custom(s) => sentence_case_of(s),
        CommitTypeView::Others => seq!['O', 't', 'h', 'e', 'r', 's'],
    }
}

/// Relies on `Inflector::to_sentence_case` of the Inflector crate: the
/// result is a pure function of the input text.
#[verifier::external_body]
fn sentence_case(s: &str) -> (r: String)
    ensures
        r@ == sentence_case_of(s@),
{
    inflector::cases::sentencecase::to_sentence_case(s)
}

// ---------------------------------------------------------------------------
// The conventional-commit grammar over a summary line
// ---------------------------------------------------------------------------

/// Where the type token ends: the first `(` or `:`.
pub open spec fn type_end(s: Seq<char>) -> int {
    let a = find_from(s, 0, '(');
    let b = find_from(s, 0, ':');
    if a < b {
        a
    } else {
        b
    }
}

/// The decomposition of a conforming summary: type token, optional
/// scope, breaking marker, description.
pub open spec fn parse_summary(s: Seq<char>) -> Option<(Seq<char>, Option<Seq<char>>, bool, Seq<char>)> {
    let te = type_end(s);
    if te < s.len() && s[te] == '(' {
        let ce = find_from(s, te + 1, ')');
        if te > 0 && te + 1 < ce && ce < s.len() {
            let bang = ce + 1 < s.len() && s[ce + 1] == '!';
            let a2 = if bang {
                ce + 2
            } else {
                ce + 1
            };
            if a2 + 2 < s.len() && s[a2] == ':' && s[a2 + 1] == ' ' {
                Some((s.take(te), Some(s.subrange(te + 1, ce)), bang, s.skip(a2 + 2)))
            } else {
                None
            }
        } else {
            None
        }
    } else {
        let bang = te > 1 && s[te - 1] == '!';
        let tend = if bang {
            te - 1
        } else {
            te
        };
        if tend > 0 && te + 2 < s.len() && s[te] == ':' && s[te + 1] == ' ' {
            Some((s.take(tend), None, bang, s.skip(te + 2)))
        } else {
            None
        }
    }
}

/// The first line of a message.
pub open spec fn summary_of(m: Seq<char>) -> Seq<char> {
    m.take(find_from(m, 0, '\n'))
}

/// What follows the first newline, if anything.
pub open spec fn body_of(m: Seq<char>) -> Option<Seq<char>> {
    if find_from(m, 0, '\n') < m.len() {
        Some(m.skip(find_from(m, 0, '\n') + 1))
    } else {
        None
    }
}

pub open spec fn breaking_mark() -> Seq<char> {
    seq![
        'B', 'R', 'E', 'A', 'K', 'I', 'N', 'G', ' ', 'C', 'H', 'A', 'N', 'G', 'E', ':', ' ',
    ]
}

/// Whether some line of the body begins with the breaking-change mark.
pub open spec fn body_flags_breaking(b: Seq<char>) -> bool {
    exists|i: int| (i == 0 || b[i - 1] == '\n') && #[trigger] matches_at(b, i, breaking_mark())
}

#[verifier::ext_equal]
pub ghost struct ConventionalView {
    pub breaking: bool,
    pub ctype: CommitTypeView,
    pub scope: Option<Seq<char>>,
    pub description: Seq<char>,
}

/// What classifying a full message yields: the parsed decomposition
/// where the summary conforms, the fallback kind otherwise.
pub open spec fn classify_spec(m: Seq<char>) -> ConventionalView {
    let s = summary_of(m);
    match parse_summary(s) {
        Some((ttok, scope, bang, desc)) => ConventionalView {
            breaking: bang || (match body_of(m) {
                Some(b) => body_flags_breaking(b),
                None => false,
            }),
            ctype: token_type(ttok),
            scope,
            description: desc,
        },
        None => ConventionalView {
            breaking: false,
            ctype: CommitTypeView::Others,
            scope: None,
            description: s,
        },
    }
}

// ---------------------------------------------------------------------------
// The classified commit
// ---------------------------------------------------------------------------

/// A commit summary classified under the conventional-commit grammar.
#[derive(Debug, PartialEq, Eq, Hash)]
pub struct ConventionalCommits {
    break_change: bool,
    pub _type: CommitType,
    pub scope: Option<String>,
    pub description: String,
}

impl View for ConventionalCommits {
    type V = ConventionalView;

    closed spec fn view(&self) -> ConventionalView {
        ConventionalView {
            breaking: self.break_change,
            ctype: self._type@,
            scope: match self.scope {
                Some(s) => Some(s@),
                None => None,
            },
            description: self.description@,
        }
    }
}

impl ConventionalCommits {
    pub fn new(break_change: bool, _type: CommitType, scope: Option<String>, description: &str) -> (r:
        ConventionalCommits)
        ensures
            r@.breaking == break_change,
            r@.ctype == _type@,
            r@.scope == (match scope {
                Some(s) => Some(s@),
                None => None::<Seq<char>>,
            }),
            r@.description == description@,
    {
        ConventionalCommits { break_change, _type, scope, description: String::from_str(description) }
    }

    /// The kind of this commit.
    pub fn raw_type(&self) -> (r: CommitType)
        ensures
            r@ == self@.ctype,
    {
        self._type.duplicate()
    }

    /// The description text after the grammar's colon.
    pub fn description_str(&self) -> (r: &str)
        ensures
            r@ == self@.description,
    {
        self.description.as_str()
    }

    /// Whether this commit was flagged as a breaking change.
    pub fn breaking(&self) -> (r: bool)
        ensures
            r == self@.breaking,
    {
        self.break_change
    }

    /// A value-equal copy.
    pub fn duplicate(&self) -> (r: ConventionalCommits)
        ensures
            r@ == self@,
    {
        let r = ConventionalCommits {
            break_change: self.break_change,
            _type: self._type.duplicate(),
            scope: match &self.scope {
                Some(s) => Some(s.clone()),
                None => None,
            },
            description: self.description.clone(),
        };
        proof {
            assert(r@ =~= self@);
        }
        r
    }

    /// Whether any line of `b` begins with the breaking-change mark.
    fn body_breaking(b: &str) -> (r: bool)
        ensures
            r == body_flags_breaking(b@),
    {
        let n = b.unicode_len();
        for i in it: 0..n
            invariant
                n == b@.len(),
                forall|j: int|
                    0 <= j < i ==> !((j == 0 || b@[j - 1] == '\n') && #[trigger] matches_at(
                        b@,
                        j,
                        breaking_mark(),
                    )),
        {
            proof {
                reveal_strlit("BREAKING CHANGE: ");
                assert("BREAKING CHANGE: "@ =~= breaking_mark());
            }
            let at_line_start = i == 0 || b.get_char(i - 1) == '\n';
            let hit = check_matches_at(b, n, i, "BREAKING CHANGE: ");
            proof {
                assert(hit == matches_at(b@, i as int, breaking_mark()));
            }
            if at_line_start && hit {
                assert((i as int == 0 || b@[i as int - 1] == '\n') && matches_at(
                    b@,
                    i as int,
                    breaking_mark(),
                ));
                return true;
            }
        }
        proof {
            if body_flags_breaking(b@) {
                let j = choose|j: int|
                    (j == 0 || b@[j - 1] == '\n') && #[trigger] matches_at(b@, j, breaking_mark());
                assert(0 <= j < b@.len());
            }
        }
        false
    }

    /// Parse a full commit message. `None` exactly when the summary
    /// does not meet the grammar; the caller then falls back to the
    /// catch-all kind with the raw summary.
    pub fn parse(m: &str) -> (r: Option<ConventionalCommits>)
        ensures
            match r {
                Some(cc) => parse_summary(summary_of(m@)) is Some && cc@ == classify_spec(m@),
                None => parse_summary(summary_of(m@)) is None,
            },
    {
        let m_len = m.unicode_len();
        let nl = find_char_from(m, m_len, 0, '\n');
        proof {
            lemma_find_from(m@, 0, '\n');
        }
        let summary = m.substring_char(0, nl);
        proof {
            assert(summary@ =~= summary_of(m@));
        }
        let s_len = summary.unicode_len();
        let a = find_char_from(summary, s_len, 0, '(');
        let bcol = find_char_from(summary, s_len, 0, ':');
        proof {
            lemma_find_from(summary@, 0, '(');
            lemma_find_from(summary@, 0, ':');
        }
        let te = if a < bcol {
            a
        } else {
            bcol
        };
        let (type_text, scope, bang, desc_start): (&str, Option<String>, bool, usize) = if te < s_len
            && summary.get_char(te) == '(' {
            let ce = find_char_from(summary, s_len, te + 1, ')');
            if !(te > 0 && te + 1 < ce && ce < s_len) {
                return None;
            }
            let bang = ce + 1 < s_len && summary.get_char(ce + 1) == '!';
            let a2 = if bang {
                ce + 2
            } else {
                ce + 1
            };
            if !(a2 < s_len && s_len - a2 > 2 && summary.get_char(a2) == ':' && summary.get_char(
                a2 + 1,
            ) == ' ') {
                return None;
            }
            let sc = summary.substring_char(te + 1, ce).to_owned();
            (summary.substring_char(0, te), Some(sc), bang, a2 + 2)
        } else {
            let bang = te > 1 && summary.get_char(te - 1) == '!';
            let tend = if bang {
                te - 1
            } else {
                te
            };
            if !(tend > 0 && te < s_len && s_len - te > 2 && summary.get_char(te) == ':'
                && summary.get_char(te + 1) == ' ') {
                return None;
            }
            (summary.substring_char(0, tend), None, bang, te + 2)
        };
        let description = summary.substring_char(desc_start, s_len).to_owned();
        let body_breaks = if nl < m_len {
            let body = m.substring_char(nl + 1, m_len);
            proof {
                assert(body@ =~= m@.skip(find_from(m@, 0, '\n') + 1));
            }
            Self::body_breaking(body)
        } else {
            false
        };
        let cc = ConventionalCommits {
            break_change: bang || body_breaks,
            _type: CommitType::parse(type_text),
            scope,
            description,
        };
        proof {
            assert(parse_summary(summary_of(m@)) is Some);
            assert(cc@ =~= classify_spec(m@));
        }
        Some(cc)
    }
}

} // verus!
