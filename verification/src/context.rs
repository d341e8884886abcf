//! Branch context extraction and commit-message cleaning.

use vstd::prelude::*;
use vstd::string::StrSliceExecFns;

use crate::git::CommitInfo;
use crate::error::Error;
use crate::text::{
    all_digit_chars, all_digits_exec, chars_to_string, contains_seq, contains_str, is_digit_char,
    digit_char, join_from, join_tokens, lower_chars, lower_seq, normalize_spec, range_eq_str,
    split_seps, split_seps_chars, split_ws, split_ws_tokens, starts_with, starts_with_str,
    str_to_chars, tidy_chars, trim_chars, trim_spec, ScrubMode,
};

verus! {

/// Type of change inferred from a branch name or from commits.
#[derive(Clone, Copy, Debug, PartialEq, Eq, Structural)]
pub enum ChangeType {
    Fix,
    Feature,
    Refactor,
    Hotfix,
    Chore,
    Docs,
}

/// The lowercase tag of a change type.
pub open spec fn change_type_tag(ct: ChangeType) -> Seq<char> {
    match ct {
        ChangeType::Fix => "fix"@,
        ChangeType::Feature => "feature"@,
        ChangeType::Refactor => "refactor"@,
        ChangeType::Hotfix => "hotfix"@,
        ChangeType::Chore => "chore"@,
        ChangeType::Docs => "docs"@,
    }
}

impl ChangeType {
    pub fn as_str(&self) -> (r: &'static str)
        ensures
            r@ == change_type_tag(*self),
    {
        match self {
            ChangeType::Fix => "fix",
            ChangeType::Feature => "feature",
            ChangeType::Refactor => "refactor",
            ChangeType::Hotfix => "hotfix",
            ChangeType::Chore => "chore",
            ChangeType::Docs => "docs",
        }
    }
}

/// Extracted context from a branch name.
#[derive(Clone, Debug)]
pub struct BranchContext {
    pub ticket: Option<String>,
    pub change_type: Option<ChangeType>,
    pub description: Option<String>,
}

/// Cleaned context assembled from branch context and surviving commits.
#[derive(Clone, Debug)]
pub struct CleanContext {
    pub ticket: Option<String>,
    pub change_type: Option<ChangeType>,
    pub description: Option<String>,
    pub commits: Vec<String>,
}

/// All occurrences of `pat` removed from `s`, scanning left to right and
/// never rescanning replaced text.
pub open spec fn remove_all(s: Seq<char>, pat: Seq<char>) -> Seq<char>
    decreases s.len(),
{
    if pat.len() == 0 {
        s
    } else if s.len() < pat.len() {
        s
    } else if s.subrange(0, pat.len() as int) == pat {
        remove_all(s.skip(pat.len() as int), pat)
    } else {
        seq![s[0]] + remove_all(s.drop_first(), pat)
    }
}

/// A branch name with the housekeeping prefixes removed, in the fixed
/// order the parser applies them.
pub open spec fn cleaned_branch(s: Seq<char>) -> Seq<char> {
    remove_all(
        remove_all(remove_all(remove_all(s, "origin/"@), "cursor/"@), "refs/heads/"@),
        "refs/remotes/"@,
    )
}

proof fn lemma_remove_all_match(s: Seq<char>, pat: Seq<char>, i: int)
    requires
        pat.len() >= 1,
        0 <= i,
        i + pat.len() <= s.len(),
        s.subrange(i, i + pat.len()) == pat,
    ensures
        remove_all(s.skip(i), pat) == remove_all(s.skip(i + pat.len()), pat),
{
    let t = s.skip(i);
    assert(t.subrange(0, pat.len() as int) =~= s.subrange(i, i + pat.len()));
    assert(t.skip(pat.len() as int) =~= s.skip(i + pat.len()));
}

proof fn lemma_remove_all_step(s: Seq<char>, pat: Seq<char>, i: int)
    requires
        pat.len() >= 1,
        0 <= i < s.len(),
        i + pat.len() > s.len() || s.subrange(i, i + pat.len()) != pat,
    ensures
        remove_all(s.skip(i), pat) == seq![s[i]] + remove_all(s.skip(i + 1), pat),
{
    let t = s.skip(i);
    assert(t[0] == s[i]);
    if t.len() < pat.len() {
        assert(remove_all(t, pat) == t);
        assert(s.skip(i + 1).len() < pat.len());
        assert(remove_all(s.skip(i + 1), pat) == s.skip(i + 1));
        assert(t =~= seq![s[i]] + s.skip(i + 1));
    } else {
        assert(t.subrange(0, pat.len() as int) =~= s.subrange(i, i + pat.len()));
        assert(t.drop_first() =~= s.skip(i + 1));
    }
}

/// Every occurrence of the characters of `pat` removed from `v`.
pub fn remove_all_str(v: &Vec<char>, pat: &str) -> (out: Vec<char>)
    requires
        pat@.len() >= 1,
    ensures
        out@ == remove_all(v@, pat@),
{
    let n = v.len();
    let pl = pat.unicode_len();
    let mut out: Vec<char> = Vec::new();
    let mut i: usize = 0;
    assert(v@.skip(0) =~= v@);
    assert(remove_all(v@, pat@) =~= out@ + remove_all(v@.skip(0), pat@));
    while i < n
        invariant
            n == v@.len(),
            pl == pat@.len(),
            pl >= 1,
            i <= n,
            remove_all(v@, pat@) == out@ + remove_all(v@.skip(i as int), pat@),
        decreases n - i,
    {
        if pl <= n - i && range_eq_str(v, i, i + pl, pat) {
            proof {
                lemma_remove_all_match(v@, pat@, i as int);
            }
            i = i + pl;
        } else {
            proof {
                lemma_remove_all_step(v@, pat@, i as int);
            }
            let ghost pre = out@;
            out.push(v[i]);
            assert(out@ + remove_all(v@.skip(i + 1), pat@) =~= pre + (seq![v@[i as int]]
                + remove_all(v@.skip(i + 1), pat@)));
            i = i + 1;
        }
    }
    assert(v@.skip(n as int) =~= Seq::<char>::empty());
    assert(out@ =~= remove_all(v@, pat@));
    out
}

/// Length of the maximal uppercase-letter prefix of `s`.
pub open spec fn upper_run_len(s: Seq<char>) -> nat
    decreases s.len(),
{
    if s.len() > 0 && is_upper_char(s[0]) {
        1 + upper_run_len(s.drop_first())
    } else {
        0
    }
}

/// Length of the maximal digit prefix of `s`.
pub open spec fn digit_run_len(s: Seq<char>) -> nat
    decreases s.len(),
{
    if s.len() > 0 && is_digit_char(s[0]) {
        1 + digit_run_len(s.drop_first())
    } else {
        0
    }
}

pub open spec fn is_upper_char(c: char) -> bool {
    65 <= c as u32 && c as u32 <= 90
}

pub fn upper_char(c: char) -> (b: bool)
    ensures
        b == is_upper_char(c),
{
    let u = c as u32;
    65 <= u && u <= 90
}

proof fn lemma_upper_run_len_unique(t: Seq<char>, m: int)
    requires
        0 <= m <= t.len(),
        forall|k: int| 0 <= k < m ==> is_upper_char(#[trigger] t[k]),
        m == t.len() || !is_upper_char(t[m]),
    ensures
        upper_run_len(t) == m,
    decreases t.len(),
{
    if m == 0 {
    } else {
        assert(is_upper_char(t[0]));
        assert forall|k: int| 0 <= k < m - 1 implies is_upper_char(#[trigger] t.drop_first()[k]) by {
            assert(t.drop_first()[k] == t[k + 1]);
        }
        if m - 1 < t.drop_first().len() {
            assert(t.drop_first()[m - 1] == t[m]);
        }
        lemma_upper_run_len_unique(t.drop_first(), m - 1);
    }
}

proof fn lemma_digit_run_len_unique(t: Seq<char>, m: int)
    requires
        0 <= m <= t.len(),
        forall|k: int| 0 <= k < m ==> is_digit_char(#[trigger] t[k]),
        m == t.len() || !is_digit_char(t[m]),
    ensures
        digit_run_len(t) == m,
    decreases t.len(),
{
    if m == 0 {
    } else {
        assert(is_digit_char(t[0]));
        assert forall|k: int| 0 <= k < m - 1 implies is_digit_char(#[trigger] t.drop_first()[k]) by {
            assert(t.drop_first()[k] == t[k + 1]);
        }
        if m - 1 < t.drop_first().len() {
            assert(t.drop_first()[m - 1] == t[m]);
        }
        lemma_digit_run_len_unique(t.drop_first(), m - 1);
    }
}

/// The length of the ticket-shaped token starting at `p` (an uppercase
/// run, a dash, a digit run), or -1 if none starts there.
pub open spec fn ticket_len_at(s: Seq<char>, p: int) -> int {
    let u = upper_run_len(s.skip(p)) as int;
    if u >= 1 && p + u < s.len() && s[p + u] == '-' {
        let d = digit_run_len(s.skip(p + u + 1)) as int;
        if d >= 1 {
            u + 1 + d
        } else {
            -1
        }
    } else {
        -1
    }
}

/// A ticket-shaped token starts at position `p` of `s`.
pub open spec fn ticket_match_at(s: Seq<char>, p: int) -> bool {
    0 <= p <= s.len() && ticket_len_at(s, p) >= 0
}

/// The ticket-shaped token starting at `p`.
pub open spec fn ticket_token_at(s: Seq<char>, p: int) -> Seq<char> {
    s.subrange(p, p + ticket_len_at(s, p))
}

/// `p` is the position of the first ticket-shaped token in `s`.
pub open spec fn is_leftmost_ticket(s: Seq<char>, p: int) -> bool {
    ticket_match_at(s, p) && (forall|q: int| 0 <= q < p ==> !ticket_match_at(s, q))
}

/// The fixed whitelist of issue-tracker prefixes; a ticket-shaped token
/// with any other prefix is not accepted as a ticket.
pub open spec fn whitelisted_ticket(t: Seq<char>) -> bool {
    ||| starts_with(t, "CRU-"@)
    ||| starts_with(t, "JIRA-"@)
    ||| starts_with(t, "TASK-"@)
    ||| starts_with(t, "BUG-"@)
    ||| starts_with(t, "FEATURE-"@)
    ||| starts_with(t, "FIX-"@)
}

/// What ticket extraction yields on `s`: the first ticket-shaped token if
/// it carries a whitelisted prefix, absent otherwise — even when a token
/// of the right shape is present.
pub open spec fn extract_ticket_spec(s: Seq<char>) -> Option<Seq<char>> {
    if exists|p: int| is_leftmost_ticket(s, p) {
        let p = choose|p: int| is_leftmost_ticket(s, p);
        let tok = ticket_token_at(s, p);
        if whitelisted_ticket(tok) {
            Some(tok)
        } else {
            None
        }
    } else {
        None
    }
}

proof fn lemma_leftmost_ticket_unique(s: Seq<char>, p1: int, p2: int)
    requires
        is_leftmost_ticket(s, p1),
        is_leftmost_ticket(s, p2),
    ensures
        p1 == p2,
{
}

/// If a ticket-shaped token starts at `p`, report its length.
fn ticket_len_here(v: &Vec<char>, p: usize) -> (r: Option<usize>)
    requires
        p <= v@.len(),
    ensures
        match r {
            Some(l) => ticket_match_at(v@, p as int) && l == ticket_len_at(v@, p as int) && p + l
                <= v@.len(),
            None => !ticket_match_at(v@, p as int),
        },
{
    let n = v.len();
    let mut u: usize = p;
    while u < n && upper_char(v[u])
        invariant
            p <= u <= n,
            n == v@.len(),
            forall|k: int| p <= k < u ==> is_upper_char(#[trigger] v@[k]),
        decreases n - u,
    {
        u = u + 1;
    }
    proof {
        let t = v@.skip(p as int);
        assert(forall|k: int| 0 <= k < u - p ==> t[k] == v@[p + k]);
        if u - p < t.len() {
            assert(t[u - p] == v@[u as int]);
        }
        lemma_upper_run_len_unique(t, u - p);
    }
    if u == p || u >= n || v[u] != '-' {
        return None;
    }
    let mut d: usize = u + 1;
    while d < n && digit_char(v[d])
        invariant
            u + 1 <= d <= n,
            n == v@.len(),
            forall|k: int| u + 1 <= k < d ==> is_digit_char(#[trigger] v@[k]),
        decreases n - d,
    {
        d = d + 1;
    }
    proof {
        let t = v@.skip(u + 1);
        assert(forall|k: int| 0 <= k < d - u - 1 ==> t[k] == v@[u + 1 + k]);
        if d - u - 1 < t.len() {
            assert(t[d - u - 1] == v@[d as int]);
        }
        lemma_digit_run_len_unique(t, d - u - 1);
    }
    if d == u + 1 {
        return None;
    }
    Some(d - p)
}

/// Find the first ticket-shaped token and accept it only with a
/// whitelisted prefix.
pub fn extract_ticket_number(branch_name: &str) -> (r: Option<String>)
    ensures
        r.deep_view() == extract_ticket_spec(branch_name@),
{
    let v = str_to_chars(branch_name);
    let n = v.len();
    let mut p: usize = 0;
    while p < n
        invariant
            p <= n,
            n == v@.len(),
            v@ == branch_name@,
            forall|q: int| 0 <= q < p ==> !ticket_match_at(v@, q),
        decreases n - p,
    {
        match ticket_len_here(&v, p) {
            Some(l) => {
                assert(is_leftmost_ticket(v@, p as int));
                let ghost chosen = choose|q: int| is_leftmost_ticket(v@, q);
                proof {
                    lemma_leftmost_ticket_unique(v@, p as int, chosen);
                }
                assert(p + l <= v@.len());
                let end: usize = p + l;
                let mut tok: Vec<char> = Vec::new();
                let mut k: usize = p;
                while k < end
                    invariant
                        p <= k <= end <= v@.len(),
                        tok@ == v@.subrange(p as int, k as int),
                    decreases end - k,
                {
                    tok.push(v[k]);
                    assert(tok@ =~= v@.subrange(p as int, k + 1));
                    k = k + 1;
                }
                assert(tok@ == ticket_token_at(v@, p as int));
                let whitelisted = starts_with_str(&tok, "CRU-") || starts_with_str(&tok, "JIRA-")
                    || starts_with_str(&tok, "TASK-") || starts_with_str(&tok, "BUG-")
                    || starts_with_str(&tok, "FEATURE-") || starts_with_str(&tok, "FIX-");
                if whitelisted {
                    return Some(chars_to_string(&tok));
                } else {
                    return None;
                }
            },
            None => {
                p = p + 1;
            },
        }
    }
    proof {
        assert(upper_run_len(v@.skip(n as int)) == 0);
        assert(!ticket_match_at(v@, n as int));
        assert forall|q: int| true implies !is_leftmost_ticket(v@, q) by {
            if ticket_match_at(v@, q) {
                assert(0 <= q <= n);
            }
        }
    }
    None
}

/// What change-type inference yields: the first matching keyword of the
/// fixed priority list, tested against the lowercased name.
pub open spec fn infer_change_type_spec(s: Seq<char>) -> Option<ChangeType> {
    let l = lower_seq(s);
    if contains_seq(l, "hotfix"@) {
        Some(ChangeType::Hotfix)
    } else if contains_seq(l, "fix"@) || contains_seq(l, "bug"@) {
        Some(ChangeType::Fix)
    } else if contains_seq(l, "feature"@) || contains_seq(l, "feat"@) {
        Some(ChangeType::Feature)
    } else if contains_seq(l, "refactor"@) {
        Some(ChangeType::Refactor)
    } else if contains_seq(l, "docs"@) || contains_seq(l, "doc"@) {
        Some(ChangeType::Docs)
    } else if contains_seq(l, "chore"@) {
        Some(ChangeType::Chore)
    } else {
        None
    }
}

/// Infer the type of change from a branch name, first keyword match wins.
pub fn infer_change_type(branch_name: &str) -> (r: Option<ChangeType>)
    ensures
        r == infer_change_type_spec(branch_name@),
{
    let v = str_to_chars(branch_name);
    let l = lower_chars(&v);
    if contains_str(&l, "hotfix") {
        Some(ChangeType::Hotfix)
    } else if contains_str(&l, "fix") || contains_str(&l, "bug") {
        Some(ChangeType::Fix)
    } else if contains_str(&l, "feature") || contains_str(&l, "feat") {
        Some(ChangeType::Feature)
    } else if contains_str(&l, "refactor") {
        Some(ChangeType::Refactor)
    } else if contains_str(&l, "docs") || contains_str(&l, "doc") {
        Some(ChangeType::Docs)
    } else if contains_str(&l, "chore") {
        Some(ChangeType::Chore)
    } else {
        None
    }
}

/// What description extraction yields: the name split on `-`, `_`, `/`
/// must have more than two pieces; the first piece (two with a ticket) is
/// skipped, the rest are joined and normalized, and the result is kept
/// only when longer than three characters and not entirely digits.
pub open spec fn extract_description_spec(s: Seq<char>, has_ticket: bool) -> Option<Seq<char>> {
    let words = split_seps(s);
    if words.len() <= 2 {
        None
    } else {
        let start: int = if has_ticket {
            2
        } else {
            1
        };
        let clean = normalize_spec(join_tokens(words.skip(start)));
        if clean.len() > 3 && !all_digit_chars(clean) {
            Some(clean)
        } else {
            None
        }
    }
}

/// Extract the free-text description from a cleaned branch name.
pub fn extract_description(branch_name: &str, has_ticket: bool) -> (r: Option<String>)
    ensures
        r.deep_view() == extract_description_spec(branch_name@, has_ticket),
{
    let v = str_to_chars(branch_name);
    let words = split_seps_chars(&v);
    if words.len() <= 2 {
        return None;
    }
    let start: usize = if has_ticket {
        2
    } else {
        1
    };
    let joined = join_from(&words, start);
    assert(words.deep_view().skip(start as int) =~= split_seps(v@).skip(start as int));
    let clean = tidy_chars(ScrubMode::Noise, &joined);
    if clean.len() > 3 && !all_digits_exec(&clean) {
        Some(chars_to_string(&clean))
    } else {
        None
    }
}

/// The message with the first matching conventional-commit prefix of the
/// fixed ordered list removed and the rest trimmed; the message itself
/// when no prefix matches. Matching is against the lowercased message.
pub open spec fn strip_conventional_prefix(m: Seq<char>) -> Seq<char> {
    let l = lower_seq(m);
    if starts_with(l, "fix:"@) {
        trim_spec(m.skip("fix:"@.len() as int))
    } else if starts_with(l, "feat:"@) {
        trim_spec(m.skip("feat:"@.len() as int))
    } else if starts_with(l, "feature:"@) {
        trim_spec(m.skip("feature:"@.len() as int))
    } else if starts_with(l, "bug:"@) {
        trim_spec(m.skip("bug:"@.len() as int))
    } else if starts_with(l, "hotfix:"@) {
        trim_spec(m.skip("hotfix:"@.len() as int))
    } else if starts_with(l, "refactor:"@) {
        trim_spec(m.skip("refactor:"@.len() as int))
    } else if starts_with(l, "docs:"@) {
        trim_spec(m.skip("docs:"@.len() as int))
    } else if starts_with(l, "style:"@) {
        trim_spec(m.skip("style:"@.len() as int))
    } else if starts_with(l, "test:"@) {
        trim_spec(m.skip("test:"@.len() as int))
    } else if starts_with(l, "chore:"@) {
        trim_spec(m.skip("chore:"@.len() as int))
    } else if starts_with(l, "perf:"@) {
        trim_spec(m.skip("perf:"@.len() as int))
    } else if starts_with(l, "ci:"@) {
        trim_spec(m.skip("ci:"@.len() as int))
    } else {
        m
    }
}

/// What cleaning one commit message yields: the conventional prefix is
/// stripped; a message still mentioning a merge or revert is dropped;
/// the rest is normalized and kept only when longer than five characters.
pub open spec fn clean_commit_spec(m: Seq<char>) -> Option<Seq<char>> {
    let s = strip_conventional_prefix(m);
    let l = lower_seq(s);
    if contains_seq(l, "merge"@) || contains_seq(l, "revert"@) {
        None
    } else {
        let c = normalize_spec(s);
        if c.len() > 5 {
            Some(c)
        } else {
            None
        }
    }
}

/// The surviving cleaned messages of a commit list, in order: each raw
/// message is trimmed, cleaned, and kept only when cleaning yields one.
pub open spec fn clean_messages_spec(ms: Seq<Seq<char>>) -> Seq<Seq<char>>
    decreases ms.len(),
{
    if ms.len() == 0 {
        Seq::empty()
    } else {
        (match clean_commit_spec(trim_spec(ms[0])) {
            Some(c) => seq![c],
            None => Seq::empty(),
        }) + clean_messages_spec(ms.drop_first())
    }
}

/// A word too vague to convey meaning alone.
pub open spec fn generic_term(w: Seq<char>) -> bool {
    ||| w == "update"@
    ||| w == "change"@
    ||| w == "modify"@
    ||| w == "fix"@
    ||| w == "improve"@
    ||| w == "add"@
    ||| w == "remove"@
}

/// A commit string conveys nothing when it has at most two words, or every
/// word is generic (ignoring case) or no longer than three characters.
pub open spec fn is_generic_commit_spec(c: Seq<char>) -> bool {
    let words = split_ws(c);
    words.len() <= 2 || (forall|k: int|
        0 <= k < words.len() ==> generic_term(lower_seq(#[trigger] words[k])) || words[k].len()
            <= 3)
}

/// The commit strings that pass the meaningfulness filter, in order.
pub open spec fn meaningful_commits_spec(cs: Seq<Seq<char>>) -> Seq<Seq<char>>
    decreases cs.len(),
{
    if cs.len() == 0 {
        Seq::empty()
    } else {
        (if !is_generic_commit_spec(cs[0]) {
            seq![cs[0]]
        } else {
            Seq::empty()
        }) + meaningful_commits_spec(cs.drop_first())
    }
}

/// Is a text too generic to be useful: at most two whitespace-separated
/// words, or every word generic (ignoring case) or no longer than three
/// characters?
pub fn generic_text(commit: &str) -> (r: bool)
    ensures
        r == is_generic_commit_spec(commit@),
{
    let v = str_to_chars(commit);
    let words = split_ws_tokens(&v);
    let n = words.len();
    if n <= 2 {
        return true;
    }
    let mut k: usize = 0;
    while k < n
        invariant
            k <= n,
            2 < n == words@.len(),
            words.deep_view() == split_ws(commit@),
            forall|t: int|
                0 <= t < k ==> generic_term(lower_seq(#[trigger] words.deep_view()[t]))
                    || words.deep_view()[t].len() <= 3,
        decreases n - k,
    {
        let w = &words[k];
        let lw = lower_chars(w);
        let wl = lw.len();
        let generic = range_eq_str(&lw, 0, wl, "update") || range_eq_str(&lw, 0, wl, "change")
            || range_eq_str(&lw, 0, wl, "modify") || range_eq_str(&lw, 0, wl, "fix")
            || range_eq_str(&lw, 0, wl, "improve") || range_eq_str(&lw, 0, wl, "add")
            || range_eq_str(&lw, 0, wl, "remove");
        assert(lw@.subrange(0, wl as int) =~= lower_seq(words.deep_view()[k as int]));
        if !generic && w.len() > 3 {
            proof {
                let ws = split_ws(commit@);
                assert(words.deep_view().len() == n);
                assert(ws.len() > 2);
                assert(ws[k as int] == words.deep_view()[k as int]);
                assert(words.deep_view()[k as int] == words@[k as int]@);
                assert(words.deep_view()[k as int].len() > 3);
                assert(!generic_term(lower_seq(#[trigger] ws[k as int])));
                assert(!is_generic_commit_spec(commit@));
            }
            return false;
        }
        k = k + 1;
    }
    true
}

/// Context processor for extracting meaningful information from branch
/// names and commit messages. The matching rules are fixed tables, so
/// there is no state to hold.
pub struct ContextProcessor {}

impl ContextProcessor {
    /// The fixed rule tables always construct.
    pub fn new() -> (r: Result<ContextProcessor, Error>)
        ensures
            r is Ok,
    {
        Ok(ContextProcessor {  })
    }

    /// Remove the housekeeping substrings `origin/`, `cursor/`,
    /// `refs/heads/` and `refs/remotes/` wherever they occur.
    pub fn remove_branch_prefixes(&self, branch_name: &str) -> (r: String)
        ensures
            r@ == cleaned_branch(branch_name@),
    {
        proof {
            reveal_strlit("origin/");
            reveal_strlit("cursor/");
            reveal_strlit("refs/heads/");
            reveal_strlit("refs/remotes/");
        }
        let v = str_to_chars(branch_name);
        let a = remove_all_str(&v, "origin/");
        let b = remove_all_str(&a, "cursor/");
        let c = remove_all_str(&b, "refs/heads/");
        let d = remove_all_str(&c, "refs/remotes/");
        chars_to_string(&d)
    }

    /// Extract ticket, change type and description from a branch name.
    pub fn extract_branch_context(&self, branch_name: &str) -> (r: BranchContext)
        ensures
            r.ticket.deep_view() == extract_ticket_spec(cleaned_branch(branch_name@)),
            r.change_type == infer_change_type_spec(cleaned_branch(branch_name@)),
            r.description.deep_view() == extract_description_spec(
                cleaned_branch(branch_name@),
                extract_ticket_spec(cleaned_branch(branch_name@)) is Some,
            ),
    {
        let clean = self.remove_branch_prefixes(branch_name);
        let ticket = extract_ticket_number(clean.as_str());
        let change_type = infer_change_type(clean.as_str());
        let description = extract_description(clean.as_str(), ticket.is_some());
        BranchContext { ticket, change_type, description }
    }

    /// Extract the ticket number from a branch name.
    pub fn extract_ticket_number(&self, branch_name: &str) -> (r: Option<String>)
        ensures
            r.deep_view() == extract_ticket_spec(branch_name@),
    {
        extract_ticket_number(branch_name)
    }

    /// Infer the type of change from a branch name.
    pub fn infer_change_type(&self, branch_name: &str) -> (r: Option<ChangeType>)
        ensures
            r == infer_change_type_spec(branch_name@),
    {
        infer_change_type(branch_name)
    }

    /// Extract the free-text description from a cleaned branch name.
    pub fn extract_description(&self, branch_name: &str, has_ticket: bool) -> (r: Option<String>)
        ensures
            r.deep_view() == extract_description_spec(branch_name@, has_ticket),
    {
        extract_description(branch_name, has_ticket)
    }

    /// Clean every commit message, dropping merge, revert and too-short
    /// ones; survivors keep their order.
    pub fn clean_commit_messages(&self, commits: &Vec<CommitInfo>) -> (r: Vec<String>)
        ensures
            r.deep_view() == clean_messages_spec(
                commits@.map_values(|c: CommitInfo| c.message@),
            ),
    {
        let ghost ms = commits@.map_values(|c: CommitInfo| c.message@);
        let n = commits.len();
        let mut r: Vec<String> = Vec::new();
        let mut i: usize = 0;
        assert(ms.skip(0) =~= ms);
        assert(clean_messages_spec(ms) =~~= r.deep_view() + clean_messages_spec(ms.skip(0)));
        while i < n
            invariant
                i <= n,
                n == commits@.len(),
                ms == commits@.map_values(|c: CommitInfo| c.message@),
                clean_messages_spec(ms) == r.deep_view() + clean_messages_spec(ms.skip(i as int)),
            decreases n - i,
        {
            proof {
                let t = ms.skip(i as int);
                assert(t[0] == ms[i as int]);
                assert(t.drop_first() =~= ms.skip(i + 1));
            }
            let trimmed = commits[i].clean_message();
            let ghost pre = r.deep_view();
            match self.clean_single_commit_message(trimmed) {
                Some(c) => {
                    r.push(c);
                    proof {
                        assert(r.deep_view() =~~= pre + seq![
                            clean_commit_spec(trim_spec(ms[i as int])).unwrap(),
                        ]);
                        assert(r.deep_view() + clean_messages_spec(ms.skip(i + 1)) =~~= pre + (seq![
                            clean_commit_spec(trim_spec(ms[i as int])).unwrap(),
                        ] + clean_messages_spec(ms.skip(i + 1))));
                    }
                },
                None => {
                    proof {
                        assert(clean_messages_spec(ms.skip(i as int)) =~~= Seq::<
                            Seq<char>,
                        >::empty() + clean_messages_spec(ms.skip(i + 1)));
                    }
                },
            }
            i = i + 1;
        }
        proof {
            assert(ms.skip(n as int) =~= Seq::<Seq<char>>::empty());
            assert(r.deep_view() =~~= clean_messages_spec(ms));
        }
        r
    }

    /// Clean a single commit message.
    pub fn clean_single_commit_message(&self, message: &str) -> (r: Option<String>)
        ensures
            r.deep_view() == clean_commit_spec(message@),
    {
        let v = str_to_chars(message);
        let stripped = self.strip_prefix(&v);
        let l = lower_chars(&stripped);
        if contains_str(&l, "merge") || contains_str(&l, "revert") {
            return None;
        }
        let c = tidy_chars(ScrubMode::Noise, &stripped);
        if c.len() > 5 {
            Some(chars_to_string(&c))
        } else {
            None
        }
    }

    /// Strip the first matching conventional-commit prefix and trim.
    fn strip_prefix(&self, v: &Vec<char>) -> (r: Vec<char>)
        ensures
            r@ == strip_conventional_prefix(v@),
    {
        let l = lower_chars(&v);
        if starts_with_str(&l, "fix:") {
            return self.strip_tail(v, "fix:".unicode_len());
        }
        if starts_with_str(&l, "feat:") {
            return self.strip_tail(v, "feat:".unicode_len());
        }
        if starts_with_str(&l, "feature:") {
            return self.strip_tail(v, "feature:".unicode_len());
        }
        if starts_with_str(&l, "bug:") {
            return self.strip_tail(v, "bug:".unicode_len());
        }
        if starts_with_str(&l, "hotfix:") {
            return self.strip_tail(v, "hotfix:".unicode_len());
        }
        if starts_with_str(&l, "refactor:") {
            return self.strip_tail(v, "refactor:".unicode_len());
        }
        if starts_with_str(&l, "docs:") {
            return self.strip_tail(v, "docs:".unicode_len());
        }
        if starts_with_str(&l, "style:") {
            return self.strip_tail(v, "style:".unicode_len());
        }
        if starts_with_str(&l, "test:") {
            return self.strip_tail(v, "test:".unicode_len());
        }
        if starts_with_str(&l, "chore:") {
            return self.strip_tail(v, "chore:".unicode_len());
        }
        if starts_with_str(&l, "perf:") {
            return self.strip_tail(v, "perf:".unicode_len());
        }
        if starts_with_str(&l, "ci:") {
            return self.strip_tail(v, "ci:".unicode_len());
        }
        let mut r: Vec<char> = Vec::new();
        let mut k: usize = 0;
        let n = v.len();
        while k < n
            invariant
                k <= n,
                n == v@.len(),
                r@ == v@.subrange(0, k as int),
            decreases n - k,
        {
            r.push(v[k]);
            assert(r@ =~= v@.subrange(0, k + 1));
            k = k + 1;
        }
        assert(r@ =~= v@);
        r
    }

    /// The characters of `v` after the first `pl`, trimmed.
    fn strip_tail(&self, v: &Vec<char>, pl: usize) -> (r: Vec<char>)
        requires
            pl <= v@.len(),
        ensures
            r@ == trim_spec(v@.skip(pl as int)),
    {
        let n = v.len();
        let mut tail: Vec<char> = Vec::new();
        let mut k: usize = pl;
        while k < n
            invariant
                pl <= k <= n,
                n == v@.len(),
                tail@ == v@.subrange(pl as int, k as int),
            decreases n - k,
        {
            tail.push(v[k]);
            assert(tail@ =~= v@.subrange(pl as int, k + 1));
            k = k + 1;
        }
        assert(tail@ =~= v@.skip(pl as int));
        trim_chars(&tail)
    }

    /// Is a commit message too generic to be useful?
    pub fn is_generic_commit(&self, commit: &str) -> (r: bool)
        ensures
            r == is_generic_commit_spec(commit@),
    {
        generic_text(commit)
    }

    /// Keep only the commits that pass the meaningfulness filter.
    pub fn filter_meaningful_commits(&self, commits: &Vec<String>) -> (r: Vec<String>)
        ensures
            r.deep_view() == meaningful_commits_spec(commits.deep_view()),
    {
        let ghost cs = commits.deep_view();
        let n = commits.len();
        let mut r: Vec<String> = Vec::new();
        let mut i: usize = 0;
        assert(cs.skip(0) =~= cs);
        assert(meaningful_commits_spec(cs) =~~= r.deep_view() + meaningful_commits_spec(
            cs.skip(0),
        ));
        while i < n
            invariant
                i <= n,
                n == commits@.len(),
                cs == commits.deep_view(),
                meaningful_commits_spec(cs) == r.deep_view() + meaningful_commits_spec(
                    cs.skip(i as int),
                ),
            decreases n - i,
        {
            proof {
                let t = cs.skip(i as int);
                assert(t[0] == cs[i as int]);
                assert(t.drop_first() =~= cs.skip(i + 1));
            }
            let keep = !self.is_generic_commit(commits[i].as_str());
            let ghost pre = r.deep_view();
            if keep {
                let s = commits[i].clone();
                r.push(s);
                proof {
                    assert(r.deep_view() =~~= pre + seq![cs[i as int]]);
                    assert(r.deep_view() + meaningful_commits_spec(cs.skip(i + 1)) =~~= pre + (seq![
                        cs[i as int],
                    ] + meaningful_commits_spec(cs.skip(i + 1))));
                }
            } else {
                proof {
                    assert(meaningful_commits_spec(cs.skip(i as int)) =~~= Seq::<
                        Seq<char>,
                    >::empty() + meaningful_commits_spec(cs.skip(i + 1)));
                }
            }
            i = i + 1;
        }
        proof {
            assert(cs.skip(n as int) =~= Seq::<Seq<char>>::empty());
            assert(r.deep_view() =~~= meaningful_commits_spec(cs));
        }
        r
    }

    /// Assemble the cleaned context from branch context and surviving
    /// commits. Nothing is deduplicated.
    pub fn create_clean_context(
        &self,
        branch_context: &BranchContext,
        commit_messages: &Vec<String>,
    ) -> (r: CleanContext)
        ensures
            r.ticket.deep_view() == branch_context.ticket.deep_view(),
            r.change_type == branch_context.change_type,
            r.description.deep_view() == branch_context.description.deep_view(),
            r.commits.deep_view() == meaningful_commits_spec(commit_messages.deep_view()),
    {
        let meaningful = self.filter_meaningful_commits(commit_messages);
        CleanContext {
            ticket: branch_context.ticket.clone(),
            change_type: branch_context.change_type,
            description: branch_context.description.clone(),
            commits: meaningful,
        }
    }

    /// Clean text by removing the noise patterns.
    pub fn clean_text(&self, text: &str) -> (r: String)
        ensures
            r@ == normalize_spec(text@),
    {
        crate::text::normalize(text)
    }
}

impl Default for ContextProcessor {
    fn default() -> (r: Self)
        ensures
            r == (ContextProcessor {  }),
    {
        ContextProcessor {  }
    }
}

/// Join pieces with an arbitrary separator.
pub open spec fn join_with(ts: Seq<Seq<char>>, sep: Seq<char>) -> Seq<char>
    decreases ts.len(),
{
    if ts.len() == 0 {
        Seq::empty()
    } else if ts.len() == 1 {
        ts[0]
    } else {
        ts[0] + sep + join_with(ts.drop_first(), sep)
    }
}

proof fn lemma_join_with_push(ts: Seq<Seq<char>>, t: Seq<char>, sep: Seq<char>)
    ensures
        join_with(ts.push(t), sep) == if ts.len() == 0 {
            t
        } else {
            join_with(ts, sep) + sep + t
        },
    decreases ts.len(),
{
    if ts.len() == 0 {
        assert(ts.push(t).len() == 1);
        assert(ts.push(t)[0] == t);
    } else if ts.len() == 1 {
        assert(ts.push(t)[0] == ts[0]);
        assert(ts.push(t).drop_first() =~= seq![t]);
        assert(join_with(seq![t], sep) == t);
    } else {
        assert(ts.push(t).drop_first() =~= ts.drop_first().push(t));
        lemma_join_with_push(ts.drop_first(), t, sep);
        assert(ts.push(t)[0] == ts[0]);
        assert(ts[0] + sep + (join_with(ts.drop_first(), sep) + sep + t) =~= (ts[0] + sep
            + join_with(ts.drop_first(), sep)) + sep + t);
    }
}

/// Join strings with the given separator.
pub fn join_strings(parts: &Vec<String>, sep: &str) -> (r: String)
    ensures
        r@ == join_with(parts.deep_view(), sep@),
{
    let n = parts.len();
    let mut r = String::new();
    let mut i: usize = 0;
    let ghost mut done: Seq<Seq<char>> = Seq::empty();
    while i < n
        invariant
            i <= n,
            n == parts@.len(),
            done =~= parts.deep_view().subrange(0, i as int),
            r@ == join_with(done, sep@),
        decreases n - i,
    {
        let ghost token = parts.deep_view()[i as int];
        if i > 0 {
            r.append(sep);
        } else {
            assert(done.len() == 0);
        }
        r.append(parts[i].as_str());
        proof {
            lemma_join_with_push(done, token, sep@);
            done = done.push(token);
            assert(done =~= parts.deep_view().subrange(0, i + 1));
        }
        i = i + 1;
    }
    proof {
        assert(parts.deep_view().subrange(0, n as int) =~= parts.deep_view());
    }
    r
}

/// The context lines of the prompt: ticket, change type and description,
/// each only when present.
pub open spec fn prompt_parts(c: CleanContext) -> Seq<Seq<char>> {
    (match c.ticket {
        Some(t) => seq!["Ticket: "@ + t@],
        None => Seq::<Seq<char>>::empty(),
    }) + (match c.change_type {
        Some(ct) => seq!["Type: "@ + change_type_tag(ct)],
        None => Seq::<Seq<char>>::empty(),
    }) + (match c.description {
        Some(d) => seq!["Description: "@ + d@],
        None => Seq::<Seq<char>>::empty(),
    })
}

/// The full prompt a language model would receive for this context.
pub open spec fn prompt_spec(c: CleanContext) -> Seq<char> {
    let parts = prompt_parts(c);
    let context_str = if parts.len() == 0 {
        "No specific context"@
    } else {
        join_with(parts, "; "@)
    };
    let commits_str = if c.commits.len() == 0 {
        "No specific changes"@
    } else {
        join_with(c.commits.deep_view(), "; "@)
    };
    "<|system|>\nYou are a helpful assistant that generates concise, meaningful PR titles based on commit messages and branch context.\n\nTITLE GENERATION RULES:\n- Generate a single, clear PR title that summarizes the main changes\n- Make it specific to the actual changes\n- Focus on what was accomplished, not how it was implemented\n- Do not include any explanations or additional text - only the title\n- Prioritize user-facing impact over technical implementation details\n- Keep it under 72 characters\n- Use present tense and active voice\n\nContext: "@
        + context_str + "\nChanges: "@ + commits_str
        + "\n\nGenerate a concise PR title:<|user|>\nBased on the context and changes above, generate a concise PR title that captures the main accomplishment.<|assistant|>"@
}

impl CleanContext {
    /// Generate a prompt describing this context for a language model.
    pub fn to_prompt(&self) -> (r: String)
        ensures
            r@ == prompt_spec(*self),
    {
        let mut context_parts: Vec<String> = Vec::new();
        match &self.ticket {
            Some(t) => {
                let mut line = String::from_str("Ticket: ");
                line.append(t.as_str());
                context_parts.push(line);
            },
            None => {},
        }
        match &self.change_type {
            Some(ct) => {
                let mut line = String::from_str("Type: ");
                line.append(ct.as_str());
                context_parts.push(line);
            },
            None => {},
        }
        match &self.description {
            Some(d) => {
                let mut line = String::from_str("Description: ");
                line.append(d.as_str());
                context_parts.push(line);
            },
            None => {},
        }
        assert(context_parts.deep_view() =~~= prompt_parts(*self));
        let context_str = if context_parts.len() == 0 {
            String::from_str("No specific context")
        } else {
            join_strings(&context_parts, "; ")
        };
        let commits_str = if self.commits.len() == 0 {
            String::from_str("No specific changes")
        } else {
            join_strings(&self.commits, "; ")
        };
        let mut r = String::from_str(
            "<|system|>\nYou are a helpful assistant that generates concise, meaningful PR titles based on commit messages and branch context.\n\nTITLE GENERATION RULES:\n- Generate a single, clear PR title that summarizes the main changes\n- Make it specific to the actual changes\n- Focus on what was accomplished, not how it was implemented\n- Do not include any explanations or additional text - only the title\n- Prioritize user-facing impact over technical implementation details\n- Keep it under 72 characters\n- Use present tense and active voice\n\nContext: ",
        );
        r.append(context_str.as_str());
        r.append("\nChanges: ");
        r.append(commits_str.as_str());
        r.append(
            "\n\nGenerate a concise PR title:<|user|>\nBased on the context and changes above, generate a concise PR title that captures the main accomplishment.<|assistant|>",
        );
        r
    }
}

/// For every branch name whose first ticket-shaped token carries a prefix
/// outside the whitelist, ticket extraction yields absent, even though a
/// token of the matching shape is present.
pub proof fn lemma_unwhitelisted_ticket_absent(s: Seq<char>, p: int)
    requires
        is_leftmost_ticket(s, p),
        !whitelisted_ticket(ticket_token_at(s, p)),
    ensures
        extract_ticket_spec(s) is None,
{
    let q = choose|q: int| is_leftmost_ticket(s, q);
    lemma_leftmost_ticket_unique(s, p, q);
}

/// Priority of change-type inference: a name whose lowercase form
/// contains `fix` resolves to Fix whatever else it contains, as long as
/// the occurrence is not part of `hotfix`.
pub proof fn lemma_fix_wins_priority(s: Seq<char>)
    requires
        contains_seq(lower_seq(s), "fix"@),
        !contains_seq(lower_seq(s), "hotfix"@),
    ensures
        infer_change_type_spec(s) == Some(ChangeType::Fix),
{
}

} // verus!
