//! Shared noise-stripping text normalizer.
//!
//! Normalization replaces each maximal word-character run that counts as
//! noise (long digit runs, long lowercase-hex runs, a fixed list of
//! branch-housekeeping words) with a space, then collapses all whitespace
//! runs to single spaces and trims the ends. The same machinery, with a
//! different word list, strips the articles `the`, `a`, `an` from
//! synthesized titles.

use vstd::prelude::*;
use vstd::string::StrSliceExecFns;

verus! {

/// Which word list a scrub pass drops: branch/commit noise, or articles.
#[derive(Clone, Copy)]
pub enum ScrubMode {
    Noise,
    Articles,
}

/// Word characters delimit the runs the scrub passes act on:
/// ASCII letters, ASCII digits and the underscore.
pub open spec fn is_word_char(c: char) -> bool {
    (97 <= c as u32 && c as u32 <= 122)  // a-z
    || (65 <= c as u32 && c as u32 <= 90)  // A-Z
    || (48 <= c as u32 && c as u32 <= 57)  // 0-9
    || c == '_'
}

/// Whitespace recognized by collapsing and trimming.
pub open spec fn is_space_char(c: char) -> bool {
    c == ' ' || c == '\t' || c == '\n' || c == '\r'
}

pub open spec fn is_digit_char(c: char) -> bool {
    48 <= c as u32 && c as u32 <= 57
}

/// A lowercase hexadecimal digit.
pub open spec fn is_hex_char(c: char) -> bool {
    is_digit_char(c) || (97 <= c as u32 && c as u32 <= 102)
}

pub open spec fn all_digit_chars(r: Seq<char>) -> bool {
    forall|i: int| 0 <= i < r.len() ==> is_digit_char(#[trigger] r[i])
}

pub open spec fn all_hex_chars(r: Seq<char>) -> bool {
    forall|i: int| 0 <= i < r.len() ==> is_hex_char(#[trigger] r[i])
}

/// A word run the normalizer erases: a digit run of length at least 4, a
/// lowercase-hex run of length at least 8, or one of the fixed
/// housekeeping words.
pub open spec fn is_noise_run(r: Seq<char>) -> bool {
    ||| (r.len() >= 4 && all_digit_chars(r))
    ||| (r.len() >= 8 && all_hex_chars(r))
    ||| r == "cursor"@
    ||| r == "origin"@
    ||| r == "main"@
    ||| r == "master"@
    ||| r == "develop"@
    ||| r == "update"@
    ||| r == "update_"@
}

/// A word run the title cleanup erases: a standalone article.
pub open spec fn is_article_run(r: Seq<char>) -> bool {
    r == "the"@ || r == "a"@ || r == "an"@
}

pub open spec fn run_dropped(mode: ScrubMode, r: Seq<char>) -> bool {
    match mode {
        ScrubMode::Noise => is_noise_run(r),
        ScrubMode::Articles => is_article_run(r),
    }
}

/// Length of the maximal word-character prefix of `s`.
pub open spec fn word_run_len(s: Seq<char>) -> nat
    decreases s.len(),
{
    if s.len() > 0 && is_word_char(s[0]) {
        1 + word_run_len(s.drop_first())
    } else {
        0
    }
}

/// Length of the maximal non-whitespace prefix of `s`.
pub open spec fn token_run_len(s: Seq<char>) -> nat
    decreases s.len(),
{
    if s.len() > 0 && !is_space_char(s[0]) {
        1 + token_run_len(s.drop_first())
    } else {
        0
    }
}

pub proof fn lemma_word_run_len(s: Seq<char>)
    ensures
        word_run_len(s) <= s.len(),
        forall|i: int| 0 <= i < word_run_len(s) ==> is_word_char(#[trigger] s[i]),
        word_run_len(s) < s.len() ==> !is_word_char(s[word_run_len(s) as int]),
        s.len() > 0 && is_word_char(s[0]) ==> word_run_len(s) >= 1,
    decreases s.len(),
{
    if s.len() > 0 && is_word_char(s[0]) {
        lemma_word_run_len(s.drop_first());
        assert forall|i: int| 0 <= i < word_run_len(s) implies is_word_char(#[trigger] s[i]) by {
            if i > 0 {
                assert(s.drop_first()[i - 1] == s[i]);
            }
        }
        if word_run_len(s) < s.len() {
            assert(s.drop_first()[word_run_len(s.drop_first()) as int]
                == s[word_run_len(s) as int]);
        }
    }
}

pub proof fn lemma_token_run_len(s: Seq<char>)
    ensures
        token_run_len(s) <= s.len(),
        forall|i: int| 0 <= i < token_run_len(s) ==> !is_space_char(#[trigger] s[i]),
        token_run_len(s) < s.len() ==> is_space_char(s[token_run_len(s) as int]),
        s.len() > 0 && !is_space_char(s[0]) ==> token_run_len(s) >= 1,
    decreases s.len(),
{
    if s.len() > 0 && !is_space_char(s[0]) {
        lemma_token_run_len(s.drop_first());
        assert forall|i: int| 0 <= i < token_run_len(s) implies !is_space_char(#[trigger] s[i]) by {
            if i > 0 {
                assert(s.drop_first()[i - 1] == s[i]);
            }
        }
        if token_run_len(s) < s.len() {
            assert(s.drop_first()[token_run_len(s.drop_first()) as int]
                == s[token_run_len(s) as int]);
        }
    }
}

/// Replace every maximal word run that `mode` drops with a single space;
/// all other characters pass through unchanged.
pub open spec fn scrub(mode: ScrubMode, s: Seq<char>) -> Seq<char>
    decreases s.len(),
    via scrub_decreases
{
    if s.len() == 0 {
        Seq::empty()
    } else if !is_word_char(s[0]) {
        seq![s[0]] + scrub(mode, s.drop_first())
    } else {
        let n = word_run_len(s) as int;
        let run = s.subrange(0, n);
        (if run_dropped(mode, run) {
            seq![' ']
        } else {
            run
        }) + scrub(mode, s.skip(n))
    }
}

#[via_fn]
proof fn scrub_decreases(mode: ScrubMode, s: Seq<char>) {
    if s.len() > 0 && is_word_char(s[0]) {
        lemma_word_run_len(s);
    }
}

/// The maximal whitespace-free tokens of `s`, in order.
pub open spec fn split_ws(s: Seq<char>) -> Seq<Seq<char>>
    decreases s.len(),
    via split_ws_decreases
{
    if s.len() == 0 {
        Seq::empty()
    } else if is_space_char(s[0]) {
        split_ws(s.drop_first())
    } else {
        let n = token_run_len(s) as int;
        seq![s.subrange(0, n)] + split_ws(s.skip(n))
    }
}

#[via_fn]
proof fn split_ws_decreases(s: Seq<char>) {
    if s.len() > 0 && !is_space_char(s[0]) {
        lemma_token_run_len(s);
    }
}

/// Join tokens with single spaces.
pub open spec fn join_tokens(ts: Seq<Seq<char>>) -> Seq<char>
    decreases ts.len(),
{
    if ts.len() == 0 {
        Seq::empty()
    } else if ts.len() == 1 {
        ts[0]
    } else {
        ts[0] + seq![' '] + join_tokens(ts.drop_first())
    }
}

/// Collapse whitespace runs to single spaces and trim both ends.
pub open spec fn collapse_ws(s: Seq<char>) -> Seq<char> {
    join_tokens(split_ws(s))
}

/// One full pass of the normalizer machinery under the given word list.
pub open spec fn tidy(mode: ScrubMode, s: Seq<char>) -> Seq<char> {
    collapse_ws(scrub(mode, s))
}

/// What the text normalizer computes: scrub branch/commit noise, then
/// collapse and trim whitespace.
pub open spec fn normalize_spec(s: Seq<char>) -> Seq<char> {
    tidy(ScrubMode::Noise, s)
}

pub proof fn lemma_word_run_len_unique(t: Seq<char>, m: int)
    requires
        0 <= m <= t.len(),
        forall|k: int| 0 <= k < m ==> is_word_char(#[trigger] t[k]),
        m == t.len() || !is_word_char(t[m]),
    ensures
        word_run_len(t) == m,
    decreases t.len(),
{
    if m == 0 {
    } else {
        assert(is_word_char(t[0]));
        assert forall|k: int| 0 <= k < m - 1 implies is_word_char(#[trigger] t.drop_first()[k]) by {
            assert(t.drop_first()[k] == t[k + 1]);
        }
        if m - 1 < t.drop_first().len() {
            assert(t.drop_first()[m - 1] == t[m]);
        }
        lemma_word_run_len_unique(t.drop_first(), m - 1);
    }
}

pub proof fn lemma_token_run_len_unique(t: Seq<char>, m: int)
    requires
        0 <= m <= t.len(),
        forall|k: int| 0 <= k < m ==> !is_space_char(#[trigger] t[k]),
        m == t.len() || is_space_char(t[m]),
    ensures
        token_run_len(t) == m,
    decreases t.len(),
{
    if m == 0 {
    } else {
        assert(!is_space_char(t[0]));
        assert forall|k: int| 0 <= k < m - 1 implies !is_space_char(#[trigger] t.drop_first()[k]) by {
            assert(t.drop_first()[k] == t[k + 1]);
        }
        if m - 1 < t.drop_first().len() {
            assert(t.drop_first()[m - 1] == t[m]);
        }
        lemma_token_run_len_unique(t.drop_first(), m - 1);
    }
}

/// Unfolding step of `scrub` at a non-word character.
pub proof fn lemma_scrub_nonword(mode: ScrubMode, s: Seq<char>, i: int)
    requires
        0 <= i < s.len(),
        !is_word_char(s[i]),
    ensures
        scrub(mode, s.skip(i)) == seq![s[i]] + scrub(mode, s.skip(i + 1)),
{
    let t = s.skip(i);
    assert(t[0] == s[i]);
    assert(t.drop_first() =~= s.skip(i + 1));
}

/// Unfolding step of `scrub` at the start of a maximal word run `[i, j)`.
pub proof fn lemma_scrub_word(mode: ScrubMode, s: Seq<char>, i: int, j: int)
    requires
        0 <= i < j <= s.len(),
        forall|k: int| i <= k < j ==> is_word_char(#[trigger] s[k]),
        j == s.len() || !is_word_char(s[j]),
    ensures
        scrub(mode, s.skip(i)) == (if run_dropped(mode, s.subrange(i, j)) {
            seq![' ']
        } else {
            s.subrange(i, j)
        }) + scrub(mode, s.skip(j)),
{
    let t = s.skip(i);
    assert forall|k: int| 0 <= k < j - i implies is_word_char(#[trigger] t[k]) by {
        assert(t[k] == s[i + k]);
    }
    if j - i < t.len() {
        assert(t[j - i] == s[j]);
    }
    lemma_word_run_len_unique(t, j - i);
    assert(is_word_char(t[0]));
    assert(t.subrange(0, j - i) =~= s.subrange(i, j));
    assert(t.skip(j - i) =~= s.skip(j));
}

/// Unfolding step of `split_ws` at a whitespace character.
pub proof fn lemma_split_space(s: Seq<char>, i: int)
    requires
        0 <= i < s.len(),
        is_space_char(s[i]),
    ensures
        split_ws(s.skip(i)) == split_ws(s.skip(i + 1)),
{
    let t = s.skip(i);
    assert(t[0] == s[i]);
    assert(t.drop_first() =~= s.skip(i + 1));
}

/// Unfolding step of `split_ws` at the start of a maximal token `[i, j)`.
pub proof fn lemma_split_token(s: Seq<char>, i: int, j: int)
    requires
        0 <= i < j <= s.len(),
        forall|k: int| i <= k < j ==> !is_space_char(#[trigger] s[k]),
        j == s.len() || is_space_char(s[j]),
    ensures
        split_ws(s.skip(i)) == seq![s.subrange(i, j)] + split_ws(s.skip(j)),
{
    let t = s.skip(i);
    assert forall|k: int| 0 <= k < j - i implies !is_space_char(#[trigger] t[k]) by {
        assert(t[k] == s[i + k]);
    }
    if j - i < t.len() {
        assert(t[j - i] == s[j]);
    }
    lemma_token_run_len_unique(t, j - i);
    assert(!is_space_char(t[0]));
    assert(t.subrange(0, j - i) =~= s.subrange(i, j));
    assert(t.skip(j - i) =~= s.skip(j));
}

/// Appending one token to a joined list adds a separating space, unless the
/// list was empty.
pub proof fn lemma_join_push(ts: Seq<Seq<char>>, t: Seq<char>)
    ensures
        join_tokens(ts.push(t)) == if ts.len() == 0 {
            t
        } else {
            join_tokens(ts) + seq![' '] + t
        },
    decreases ts.len(),
{
    if ts.len() == 0 {
        assert(ts.push(t).len() == 1);
        assert(ts.push(t)[0] == t);
    } else if ts.len() == 1 {
        assert(ts.push(t)[0] == ts[0]);
        assert(ts.push(t).drop_first() =~= seq![t]);
        assert(join_tokens(seq![t]) == t);
    } else {
        assert(ts.push(t).drop_first() =~= ts.drop_first().push(t));
        lemma_join_push(ts.drop_first(), t);
        assert(ts.push(t)[0] == ts[0]);
        assert(ts[0] + seq![' '] + (join_tokens(ts.drop_first()) + seq![' '] + t)
            =~= (ts[0] + seq![' '] + join_tokens(ts.drop_first())) + seq![' '] + t);
    }
}

pub fn word_char(c: char) -> (b: bool)
    ensures
        b == is_word_char(c),
{
    let u = c as u32;
    (97 <= u && u <= 122) || (65 <= u && u <= 90) || (48 <= u && u <= 57) || c == '_'
}

pub fn space_char(c: char) -> (b: bool)
    ensures
        b == is_space_char(c),
{
    c == ' ' || c == '\t' || c == '\n' || c == '\r'
}

pub fn digit_char(c: char) -> (b: bool)
    ensures
        b == is_digit_char(c),
{
    let u = c as u32;
    48 <= u && u <= 57
}

pub fn hex_char(c: char) -> (b: bool)
    ensures
        b == is_hex_char(c),
{
    let u = c as u32;
    (48 <= u && u <= 57) || (97 <= u && u <= 102)
}

/// The characters of `s`, in order, as a vector.
pub fn str_to_chars(s: &str) -> (v: Vec<char>)
    ensures
        v@ == s@,
{
    let n = s.unicode_len();
    let mut v: Vec<char> = Vec::new();
    let mut i: usize = 0;
    while i < n
        invariant
            n == s@.len(),
            i <= n,
            v@ == s@.subrange(0, i as int),
        decreases n - i,
    {
        let c = s.get_char(i);
        v.push(c);
        assert(v@ =~= s@.subrange(0, i + 1));
        i = i + 1;
    }
    assert(v@ =~= s@);
    v
}

/// Relies on String implementing FromIterator<char>: collecting characters
/// yields the string of exactly those characters, in order.
#[verifier::external_body]
pub fn chars_to_string(v: &Vec<char>) -> (r: String)
    ensures
        r@ == v@,
{
    v.iter().collect()
}

/// Does `v[start..end]` spell exactly the characters of `w`?
pub fn range_eq_str(v: &Vec<char>, start: usize, end: usize, w: &str) -> (b: bool)
    requires
        start <= end <= v@.len(),
    ensures
        b == (v@.subrange(start as int, end as int) == w@),
{
    let wl = w.unicode_len();
    if end - start != wl {
        assert(v@.subrange(start as int, end as int).len() == end - start);
        return false;
    }
    let mut k: usize = 0;
    while k < wl
        invariant
            start <= end <= v@.len(),
            end - start == wl == w@.len(),
            k <= wl,
            forall|m: int| 0 <= m < k ==> v@[start + m] == w@[m],
        decreases wl - k,
    {
        if v[start + k] != w.get_char(k) {
            assert(v@.subrange(start as int, end as int)[k as int] != w@[k as int]);
            return false;
        }
        k = k + 1;
    }
    assert(v@.subrange(start as int, end as int) =~= w@);
    true
}

/// Is the run `v[start..end]` one the given scrub pass erases?
fn dropped_run(mode: ScrubMode, v: &Vec<char>, start: usize, end: usize) -> (b: bool)
    requires
        start <= end <= v@.len(),
    ensures
        b == run_dropped(mode, v@.subrange(start as int, end as int)),
{
    let ghost r = v@.subrange(start as int, end as int);
    match mode {
        ScrubMode::Noise => {
            let mut all_digits = true;
            let mut all_hex = true;
            let mut k: usize = start;
            while k < end
                invariant
                    start <= k <= end <= v@.len(),
                    all_digits == (forall|m: int| start <= m < k ==> is_digit_char(#[trigger] v@[m])),
                    all_hex == (forall|m: int| start <= m < k ==> is_hex_char(#[trigger] v@[m])),
                decreases end - k,
            {
                let c = v[k];
                if !digit_char(c) {
                    all_digits = false;
                }
                if !hex_char(c) {
                    all_hex = false;
                }
                k = k + 1;
            }
            assert(all_digit_chars(r) == (forall|m: int| start <= m < end ==> is_digit_char(
                #[trigger] v@[m],
            ))) by {
                assert(forall|m: int| start <= m < end ==> r[m - start] == v@[m]);
            }
            assert(all_hex_chars(r) == (forall|m: int| start <= m < end ==> is_hex_char(
                #[trigger] v@[m],
            ))) by {
                assert(forall|m: int| start <= m < end ==> r[m - start] == v@[m]);
            }
            if end - start >= 4 && all_digits {
                return true;
            }
            if end - start >= 8 && all_hex {
                return true;
            }
            range_eq_str(v, start, end, "cursor") || range_eq_str(v, start, end, "origin")
                || range_eq_str(v, start, end, "main") || range_eq_str(v, start, end, "master")
                || range_eq_str(v, start, end, "develop") || range_eq_str(v, start, end, "update")
                || range_eq_str(v, start, end, "update_")
        },
        ScrubMode::Articles => {
            range_eq_str(v, start, end, "the") || range_eq_str(v, start, end, "a") || range_eq_str(
                v,
                start,
                end,
                "an",
            )
        },
    }
}

/// Replace every maximal word run that `mode` drops with a single space.
pub fn scrub_chars(mode: ScrubMode, v: &Vec<char>) -> (out: Vec<char>)
    ensures
        out@ == scrub(mode, v@),
{
    let n = v.len();
    let mut out: Vec<char> = Vec::new();
    let mut i: usize = 0;
    assert(v@.skip(0) =~= v@);
    assert(scrub(mode, v@) =~= out@ + scrub(mode, v@.skip(0)));
    while i < n
        invariant
            n == v@.len(),
            i <= n,
            scrub(mode, v@) == out@ + scrub(mode, v@.skip(i as int)),
        decreases n - i,
    {
        if !word_char(v[i]) {
            proof {
                lemma_scrub_nonword(mode, v@, i as int);
            }
            out.push(v[i]);
            assert(out@ + scrub(mode, v@.skip(i + 1)) =~= out@.drop_last() + (seq![v@[i as int]]
                + scrub(mode, v@.skip(i + 1))));
            i = i + 1;
        } else {
            let mut j: usize = i + 1;
            while j < n && word_char(v[j])
                invariant
                    i < j <= n,
                    n == v@.len(),
                    forall|k: int| i <= k < j ==> is_word_char(#[trigger] v@[k]),
                decreases n - j,
            {
                j = j + 1;
            }
            proof {
                lemma_scrub_word(mode, v@, i as int, j as int);
            }
            let ghost run = v@.subrange(i as int, j as int);
            let ghost pre = out@;
            if dropped_run(mode, v, i, j) {
                out.push(' ');
                assert(out@ =~= pre + seq![' ']);
            } else {
                let mut k: usize = i;
                while k < j
                    invariant
                        i <= k <= j <= v@.len(),
                        out@ == pre + v@.subrange(i as int, k as int),
                    decreases j - k,
                {
                    out.push(v[k]);
                    assert(out@ =~= pre + v@.subrange(i as int, k + 1));
                    k = k + 1;
                }
                assert(out@ == pre + run);
            }
            assert(out@ + scrub(mode, v@.skip(j as int)) =~= pre + scrub(mode, v@.skip(i as int)));
            i = j;
        }
    }
    assert(v@.skip(n as int) =~= Seq::<char>::empty());
    assert(out@ =~= scrub(mode, v@));
    out
}

/// Collapse whitespace runs to single spaces and trim both ends.
pub fn collapse_chars(v: &Vec<char>) -> (out: Vec<char>)
    ensures
        out@ == collapse_ws(v@),
{
    let n = v.len();
    let mut out: Vec<char> = Vec::new();
    let mut i: usize = 0;
    let ghost mut done: Seq<Seq<char>> = Seq::empty();
    assert(v@.skip(0) =~= v@);
    assert(split_ws(v@) =~= done + split_ws(v@.skip(0)));
    while i < n
        invariant
            n == v@.len(),
            i <= n,
            split_ws(v@) == done + split_ws(v@.skip(i as int)),
            out@ == join_tokens(done),
            forall|t: int| 0 <= t < done.len() ==> (#[trigger] done[t]).len() > 0,
        decreases n - i,
    {
        if space_char(v[i]) {
            proof {
                lemma_split_space(v@, i as int);
            }
            i = i + 1;
        } else {
            let mut j: usize = i + 1;
            while j < n && !space_char(v[j])
                invariant
                    i < j <= n,
                    n == v@.len(),
                    forall|k: int| i <= k < j ==> !is_space_char(#[trigger] v@[k]),
                decreases n - j,
            {
                j = j + 1;
            }
            proof {
                lemma_split_token(v@, i as int, j as int);
            }
            let ghost token = v@.subrange(i as int, j as int);
            let ghost pre = out@;
            if out.len() > 0 {
                out.push(' ');
            } else {
                proof {
                    lemma_join_nonempty(done);
                }
            }
            let mut k: usize = i;
            let ghost mid = out@;
            while k < j
                invariant
                    i <= k <= j <= v@.len(),
                    out@ == mid + v@.subrange(i as int, k as int),
                decreases j - k,
            {
                out.push(v[k]);
                assert(out@ =~= mid + v@.subrange(i as int, k + 1));
                k = k + 1;
            }
            proof {
                lemma_join_push(done, token);
                if done.len() == 0 {
                    assert(out@ =~= token);
                } else {
                    assert(out@ =~= join_tokens(done) + seq![' '] + token);
                }
                done = done.push(token);
                assert(split_ws(v@) =~= done + split_ws(v@.skip(j as int)));
            }
            i = j;
        }
    }
    proof {
        assert(v@.skip(n as int) =~= Seq::<char>::empty());
        assert(split_ws(v@) =~= done);
    }
    out
}

/// Joining a nonempty list of nonempty tokens yields a nonempty string.
pub proof fn lemma_join_nonempty(ts: Seq<Seq<char>>)
    requires
        forall|t: int| 0 <= t < ts.len() ==> (#[trigger] ts[t]).len() > 0,
    ensures
        join_tokens(ts).len() == 0 ==> ts.len() == 0,
    decreases ts.len(),
{
    if ts.len() > 1 {
        assert(ts[0].len() > 0);
    }
}

/// One full scrub-and-collapse pass over a character vector.
pub fn tidy_chars(mode: ScrubMode, v: &Vec<char>) -> (out: Vec<char>)
    ensures
        out@ == tidy(mode, v@),
{
    let scrubbed = scrub_chars(mode, v);
    collapse_chars(&scrubbed)
}

/// Strip noise from `text`: erase long digit runs, long lowercase-hex runs
/// and housekeeping words, then collapse and trim whitespace.
pub fn normalize(text: &str) -> (r: String)
    ensures
        r@ == normalize_spec(text@),
{
    let v = str_to_chars(text);
    let t = tidy_chars(ScrubMode::Noise, &v);
    chars_to_string(&t)
}

/// `[i, j)` is a maximal word-character run of `s`.
pub open spec fn is_max_word_run(s: Seq<char>, i: int, j: int) -> bool {
    &&& 0 <= i < j <= s.len()
    &&& (forall|k: int| i <= k < j ==> is_word_char(#[trigger] s[k]))
    &&& (i == 0 || !is_word_char(s[i - 1]))
    &&& (j == s.len() || !is_word_char(s[j]))
}

/// No maximal word run of `s` is one that the scrub pass would erase.
pub open spec fn runs_clean(mode: ScrubMode, s: Seq<char>) -> bool {
    forall|i: int, j: int| #[trigger]
        is_max_word_run(s, i, j) ==> !run_dropped(mode, s.subrange(i, j))
}

pub proof fn lemma_space_not_word(c: char)
    requires
        is_space_char(c),
    ensures
        !is_word_char(c),
{
}

/// Cutting `s` at positions that no word run crosses keeps it clean.
pub proof fn lemma_runs_clean_subrange(mode: ScrubMode, s: Seq<char>, a: int, b: int)
    requires
        runs_clean(mode, s),
        0 <= a <= b <= s.len(),
        a == 0 || a == s.len() || !is_word_char(s[a - 1]) || !is_word_char(s[a]),
        b == s.len() || b == 0 || !is_word_char(s[b]) || !is_word_char(s[b - 1]),
    ensures
        runs_clean(mode, s.subrange(a, b)),
{
    let sub = s.subrange(a, b);
    assert forall|i: int, j: int| #[trigger]
        is_max_word_run(sub, i, j) implies !run_dropped(mode, sub.subrange(i, j)) by {
        assert(forall|k: int| a + i <= k < a + j ==> s[k] == sub[k - a]);
        if i == 0 {
            assert(is_word_char(s[a]));
        }
        if j == sub.len() && b < s.len() {
            assert(is_word_char(s[b - 1]));
        }
        assert(is_max_word_run(s, a + i, a + j));
        assert(s.subrange(a + i, a + j) =~= sub.subrange(i, j));
    }
}

/// A clean string passes the scrub unchanged.
pub proof fn lemma_scrub_id(mode: ScrubMode, s: Seq<char>)
    requires
        runs_clean(mode, s),
    ensures
        scrub(mode, s) == s,
    decreases s.len(),
{
    if s.len() == 0 {
        assert(scrub(mode, s) =~= s);
    } else if !is_word_char(s[0]) {
        lemma_runs_clean_subrange(mode, s, 1, s.len() as int);
        assert(s.drop_first() =~= s.subrange(1, s.len() as int));
        lemma_scrub_id(mode, s.drop_first());
        assert(seq![s[0]] + s.drop_first() =~= s);
    } else {
        lemma_word_run_len(s);
        let n = word_run_len(s) as int;
        assert(is_max_word_run(s, 0, n));
        assert(!run_dropped(mode, s.subrange(0, n)));
        if n < s.len() {
            assert(!is_word_char(s[n]));
        }
        lemma_runs_clean_subrange(mode, s, n, s.len() as int);
        assert(s.skip(n) =~= s.subrange(n, s.len() as int));
        lemma_scrub_id(mode, s.skip(n));
        assert(s.subrange(0, n) + s.skip(n) =~= s);
    }
}

/// Prepending a single non-word character keeps a string clean.
pub proof fn lemma_runs_clean_cons(mode: ScrubMode, c: char, u: Seq<char>)
    requires
        !is_word_char(c),
        runs_clean(mode, u),
    ensures
        runs_clean(mode, seq![c] + u),
{
    let s = seq![c] + u;
    assert forall|i: int, j: int| #[trigger]
        is_max_word_run(s, i, j) implies !run_dropped(mode, s.subrange(i, j)) by {
        assert(!is_word_char(s[0]));
        assert(i >= 1);
        assert(forall|k: int| i - 1 <= k < j - 1 ==> u[k] == s[k + 1]);
        assert(is_max_word_run(u, i - 1, j - 1));
        assert(u.subrange(i - 1, j - 1) =~= s.subrange(i, j));
    }
}

/// Concatenating clean strings at a non-word seam keeps the result clean.
pub proof fn lemma_runs_clean_append(mode: ScrubMode, p: Seq<char>, q: Seq<char>)
    requires
        runs_clean(mode, p),
        runs_clean(mode, q),
        q.len() > 0 ==> !is_word_char(q[0]),
    ensures
        runs_clean(mode, p + q),
{
    let s = p + q;
    let pl = p.len() as int;
    assert forall|i: int, j: int| #[trigger]
        is_max_word_run(s, i, j) implies !run_dropped(mode, s.subrange(i, j)) by {
        if i < pl {
            // The run lies inside `p`: it cannot cross the non-word seam.
            assert(forall|k: int| i <= k < j && k < pl ==> p[k] == s[k]);
            if j > pl {
                assert(is_word_char(s[pl]));
                assert(q[0] == s[pl]);
                assert(false);
            }
            assert(is_max_word_run(p, i, j));
            assert(p.subrange(i, j) =~= s.subrange(i, j));
        } else {
            // The run lies inside `q`.
            assert(forall|k: int| i - pl <= k < j - pl ==> q[k] == s[k + pl]);
            if i == pl {
                assert(is_word_char(s[pl]));
                assert(q[0] == s[pl]);
                assert(false);
            }
            assert(is_max_word_run(q, i - pl, j - pl));
            assert(q.subrange(i - pl, j - pl) =~= s.subrange(i, j));
        }
    }
}

/// Prepending a maximal word run that the pass keeps, onto a clean string
/// that does not start with a word character, keeps the result clean.
pub proof fn lemma_runs_clean_prepend_run(mode: ScrubMode, r: Seq<char>, u: Seq<char>)
    requires
        r.len() > 0,
        forall|k: int| 0 <= k < r.len() ==> is_word_char(#[trigger] r[k]),
        !run_dropped(mode, r),
        runs_clean(mode, u),
        u.len() > 0 ==> !is_word_char(u[0]),
    ensures
        runs_clean(mode, r + u),
{
    let s = r + u;
    let rl = r.len() as int;
    assert forall|i: int, j: int| #[trigger]
        is_max_word_run(s, i, j) implies !run_dropped(mode, s.subrange(i, j)) by {
        if i < rl {
            // Starts inside `r`: maximality forces the run to be all of `r`.
            assert(i == 0) by {
                if i > 0 {
                    assert(is_word_char(s[i - 1]));
                }
            }
            assert(j >= rl) by {
                if j < rl {
                    assert(is_word_char(s[j]));
                }
            }
            assert(j == rl) by {
                if j > rl {
                    assert(is_word_char(s[rl]));
                    assert(u[0] == s[rl]);
                }
            }
            assert(s.subrange(0, rl) =~= r);
        } else {
            if i == rl {
                assert(is_word_char(s[i]));
                assert(u[0] == s[rl]);
                assert(false);
            }
            assert(forall|k: int| i - rl <= k < j - rl ==> u[k] == s[k + rl]);
            assert(is_max_word_run(u, i - rl, j - rl));
            assert(u.subrange(i - rl, j - rl) =~= s.subrange(i, j));
        }
    }
}

/// A scrubbed string starting at a non-word character keeps that character.
pub proof fn lemma_scrub_first_nonword(mode: ScrubMode, s: Seq<char>)
    requires
        s.len() > 0,
        !is_word_char(s[0]),
    ensures
        scrub(mode, s).len() > 0,
        scrub(mode, s)[0] == s[0],
{
    assert(scrub(mode, s) == seq![s[0]] + scrub(mode, s.drop_first()));
}

/// The scrub output never contains a run that the pass would erase.
pub proof fn lemma_scrub_clean(mode: ScrubMode, s: Seq<char>)
    ensures
        runs_clean(mode, scrub(mode, s)),
    decreases s.len(),
{
    if s.len() == 0 {
        assert forall|i: int, j: int| #[trigger]
            is_max_word_run(scrub(mode, s), i, j) implies !run_dropped(
            mode,
            scrub(mode, s).subrange(i, j),
        ) by {
            assert(scrub(mode, s).len() == 0);
        }
    } else if !is_word_char(s[0]) {
        lemma_scrub_clean(mode, s.drop_first());
        lemma_runs_clean_cons(mode, s[0], scrub(mode, s.drop_first()));
    } else {
        lemma_word_run_len(s);
        let n = word_run_len(s) as int;
        let run = s.subrange(0, n);
        let u = scrub(mode, s.skip(n));
        lemma_scrub_clean(mode, s.skip(n));
        if s.skip(n).len() > 0 {
            assert(s.skip(n)[0] == s[n]);
            assert(!is_word_char(s[n]));
            lemma_scrub_first_nonword(mode, s.skip(n));
        }
        if run_dropped(mode, run) {
            lemma_runs_clean_cons(mode, ' ', u);
            assert(seq![' '] + u =~= scrub(mode, s));
        } else {
            assert(forall|k: int| 0 <= k < n ==> run[k] == s[k]);
            lemma_runs_clean_prepend_run(mode, run, u);
        }
    }
}

/// Tokens of a clean string are nonempty, whitespace-free and clean.
pub proof fn lemma_split_ws_props(mode: ScrubMode, s: Seq<char>)
    requires
        runs_clean(mode, s),
    ensures
        forall|t: int|
            0 <= t < split_ws(s).len() ==> {
                let tok = #[trigger] split_ws(s)[t];
                tok.len() > 0 && (forall|k: int| 0 <= k < tok.len() ==> !is_space_char(
                    #[trigger] tok[k],
                )) && runs_clean(mode, tok)
            },
    decreases s.len(),
{
    if s.len() == 0 {
        assert(split_ws(s).len() == 0);
    } else if is_space_char(s[0]) {
        lemma_space_not_word(s[0]);
        lemma_runs_clean_subrange(mode, s, 1, s.len() as int);
        assert(s.drop_first() =~= s.subrange(1, s.len() as int));
        lemma_split_ws_props(mode, s.drop_first());
        assert(split_ws(s) == split_ws(s.drop_first()));
    } else {
        lemma_token_run_len(s);
        let n = token_run_len(s) as int;
        let tok = s.subrange(0, n);
        if n < s.len() {
            lemma_space_not_word(s[n]);
        }
        lemma_runs_clean_subrange(mode, s, 0, n);
        lemma_runs_clean_subrange(mode, s, n, s.len() as int);
        assert(s.skip(n) =~= s.subrange(n, s.len() as int));
        lemma_split_ws_props(mode, s.skip(n));
        assert(forall|k: int| 0 <= k < n ==> tok[k] == s[k]);
        assert forall|t: int| 0 <= t < split_ws(s).len() implies {
            let tk = #[trigger] split_ws(s)[t];
            tk.len() > 0 && (forall|k: int| 0 <= k < tk.len() ==> !is_space_char(#[trigger] tk[k]))
                && runs_clean(mode, tk)
        } by {
            if t == 0 {
                assert(split_ws(s)[0] == tok);
            } else {
                assert(split_ws(s)[t] == split_ws(s.skip(n))[t - 1]);
            }
        }
    }
}

/// Joining clean, whitespace-free, nonempty tokens yields a clean string.
pub proof fn lemma_join_clean(mode: ScrubMode, ts: Seq<Seq<char>>)
    requires
        forall|t: int|
            0 <= t < ts.len() ==> {
                let tok = #[trigger] ts[t];
                tok.len() > 0 && runs_clean(mode, tok)
            },
    ensures
        runs_clean(mode, join_tokens(ts)),
    decreases ts.len(),
{
    if ts.len() == 0 {
        let e = join_tokens(ts);
        assert forall|i: int, j: int| #[trigger]
            is_max_word_run(e, i, j) implies !run_dropped(mode, e.subrange(i, j)) by {
            assert(e.len() == 0);
        }
    } else if ts.len() == 1 {
        assert(join_tokens(ts) == ts[0]);
    } else {
        lemma_join_clean(mode, ts.drop_first());
        lemma_runs_clean_cons(mode, ' ', join_tokens(ts.drop_first()));
        lemma_runs_clean_append(mode, ts[0], seq![' '] + join_tokens(ts.drop_first()));
        assert(ts[0] + (seq![' '] + join_tokens(ts.drop_first())) =~= join_tokens(ts));
    }
}

/// Splitting a joined list of nonempty, whitespace-free tokens gives the
/// list back.
pub proof fn lemma_split_of_join(ts: Seq<Seq<char>>)
    requires
        forall|t: int|
            0 <= t < ts.len() ==> {
                let tok = #[trigger] ts[t];
                tok.len() > 0 && (forall|k: int| 0 <= k < tok.len() ==> !is_space_char(
                    #[trigger] tok[k],
                ))
            },
    ensures
        split_ws(join_tokens(ts)) == ts,
    decreases ts.len(),
{
    if ts.len() == 0 {
        assert(split_ws(join_tokens(ts)) =~= ts);
    } else if ts.len() == 1 {
        let x = ts[0];
        assert(x.len() > 0);
        assert(!is_space_char(x[0]));
        assert(join_tokens(ts) == x);
        lemma_token_run_len_unique(x, x.len() as int);
        assert(x.subrange(0, x.len() as int) =~= x);
        assert(x.skip(x.len() as int) =~= Seq::<char>::empty());
        assert(split_ws(x.skip(x.len() as int)).len() == 0);
        assert(split_ws(x) == seq![x.subrange(0, x.len() as int)] + split_ws(
            x.skip(x.len() as int),
        ));
        assert(split_ws(x) =~= ts);
    } else {
        let x = ts[0];
        let w = join_tokens(ts.drop_first());
        let s = join_tokens(ts);
        assert(s == x + seq![' '] + w);
        let xl = x.len() as int;
        assert forall|k: int| 0 <= k < xl implies !is_space_char(#[trigger] s[k]) by {
            assert(s[k] == x[k]);
        }
        assert(s[xl] == ' ');
        lemma_token_run_len_unique(s, xl);
        assert(!is_space_char(s[0]));
        assert(s.subrange(0, xl) =~= x);
        lemma_split_token(s, 0, xl);
        assert(s.skip(0) =~= s);
        lemma_split_space(s, xl);
        assert(s.skip(xl + 1) =~= w);
        lemma_split_of_join(ts.drop_first());
        assert(split_ws(s) == seq![x] + split_ws(w));
        assert(seq![x] + ts.drop_first() =~= ts);
    }
}

/// One tidy pass is a fixed point: running it again changes nothing.
pub proof fn lemma_tidy_idempotent(mode: ScrubMode, s: Seq<char>)
    ensures
        tidy(mode, tidy(mode, s)) == tidy(mode, s),
{
    let u = scrub(mode, s);
    let ts = split_ws(u);
    let out = join_tokens(ts);
    lemma_scrub_clean(mode, s);
    lemma_split_ws_props(mode, u);
    lemma_join_clean(mode, ts);
    lemma_scrub_id(mode, out);
    lemma_split_of_join(ts);
}

/// The text normalizer is idempotent: normalizing already-normalized text
/// is a no-op.
pub proof fn lemma_normalize_idempotent(s: Seq<char>)
    ensures
        normalize_spec(normalize_spec(s)) == normalize_spec(s),
{
    lemma_tidy_idempotent(ScrubMode::Noise, s);
}

/// ASCII uppercasing of one character.
pub open spec fn upper_char_spec(c: char) -> char {
    if 97 <= c as u32 && c as u32 <= 122 {
        ((c as u32) - 32) as char
    } else {
        c
    }
}

pub fn upper_char_exec(c: char) -> (r: char)
    ensures
        r == upper_char_spec(c),
{
    let u = c as u32;
    if 97 <= u && u <= 122 {
        ((u - 32) as u8) as char
    } else {
        c
    }
}

/// The first character uppercased (ASCII), the rest unchanged.
pub open spec fn capitalize_spec(s: Seq<char>) -> Seq<char> {
    if s.len() > 0 {
        seq![upper_char_spec(s[0])] + s.drop_first()
    } else {
        s
    }
}

/// Uppercase the first character of a vector in place.
pub fn capitalize_chars(v: &mut Vec<char>)
    ensures
        final(v)@ == capitalize_spec(old(v)@),
{
    if v.len() > 0 {
        let c = upper_char_exec(v[0]);
        v.set(0, c);
        assert(v@ =~= seq![upper_char_spec(old(v)@[0])] + old(v)@.drop_first());
    }
}

/// Append the characters of `src` to `dst`.
pub fn append_chars(dst: &mut Vec<char>, src: &Vec<char>)
    ensures
        final(dst)@ == old(dst)@ + src@,
{
    let n = src.len();
    let mut k: usize = 0;
    while k < n
        invariant
            k <= n,
            n == src@.len(),
            dst@ == old(dst)@ + src@.subrange(0, k as int),
        decreases n - k,
    {
        dst.push(src[k]);
        assert(dst@ =~= old(dst)@ + src@.subrange(0, k + 1));
        k = k + 1;
    }
    assert(dst@ =~= old(dst)@ + src@);
}

/// Does the string `s` spell exactly the characters of `w`?
pub fn string_eq_lit(s: &String, w: &str) -> (b: bool)
    ensures
        b == (s@ == w@),
{
    let v = str_to_chars(s.as_str());
    let n = v.len();
    assert(v@.subrange(0, n as int) =~= v@);
    range_eq_str(&v, 0, n, w)
}

/// ASCII case folding of one character.
pub open spec fn lower_char(c: char) -> char {
    if 65 <= c as u32 && c as u32 <= 90 {
        ((c as u32) + 32) as char
    } else {
        c
    }
}

/// ASCII case folding of a string, character by character.
pub open spec fn lower_seq(s: Seq<char>) -> Seq<char> {
    s.map_values(|c: char| lower_char(c))
}

pub fn lower_char_exec(c: char) -> (r: char)
    ensures
        r == lower_char(c),
{
    let u = c as u32;
    if 65 <= u && u <= 90 {
        ((u + 32) as u8) as char
    } else {
        c
    }
}

pub fn lower_chars(v: &Vec<char>) -> (r: Vec<char>)
    ensures
        r@ == lower_seq(v@),
{
    let n = v.len();
    let mut r: Vec<char> = Vec::new();
    let mut i: usize = 0;
    while i < n
        invariant
            n == v@.len(),
            i <= n,
            r@.len() == i,
            forall|k: int| 0 <= k < i ==> r@[k] == lower_char(v@[k]),
        decreases n - i,
    {
        r.push(lower_char_exec(v[i]));
        i = i + 1;
    }
    assert(r@ =~= lower_seq(v@));
    r
}

/// `n` occurs in `h` starting at position `i`.
pub open spec fn occurs_at(h: Seq<char>, n: Seq<char>, i: int) -> bool {
    0 <= i && i + n.len() <= h.len() && h.subrange(i, i + n.len()) == n
}

/// `n` occurs somewhere in `h` as a contiguous substring.
pub open spec fn contains_seq(h: Seq<char>, n: Seq<char>) -> bool {
    exists|i: int| occurs_at(h, n, i)
}

/// `p` is a prefix of `h`.
pub open spec fn starts_with(h: Seq<char>, p: Seq<char>) -> bool {
    p.len() <= h.len() && h.subrange(0, p.len() as int) == p
}

/// Substring search for the characters of `w` in `v`.
pub fn contains_str(v: &Vec<char>, w: &str) -> (b: bool)
    ensures
        b == contains_seq(v@, w@),
{
    let wl = w.unicode_len();
    let n = v.len();
    if wl > n {
        assert(!contains_seq(v@, w@)) by {
            if contains_seq(v@, w@) {
                let i = choose|i: int| occurs_at(v@, w@, i);
            }
        }
        return false;
    }
    if wl == 0 {
        assert(v@.subrange(0, 0) =~= w@);
        assert(occurs_at(v@, w@, 0));
        return true;
    }
    let mut i: usize = 0;
    while i <= n - wl
        invariant
            n == v@.len(),
            wl == w@.len(),
            0 < wl <= n,
            i <= n - wl + 1,
            forall|k: int| 0 <= k < i ==> !occurs_at(v@, w@, k),
        decreases n - i,
    {
        if range_eq_str(v, i, i + wl, w) {
            assert(occurs_at(v@, w@, i as int));
            return true;
        }
        i = i + 1;
    }
    assert(!contains_seq(v@, w@)) by {
        if contains_seq(v@, w@) {
            let k = choose|k: int| occurs_at(v@, w@, k);
            assert(!occurs_at(v@, w@, k));
        }
    }
    false
}

/// Does `v` start with the characters of `w`?
pub fn starts_with_str(v: &Vec<char>, w: &str) -> (b: bool)
    ensures
        b == starts_with(v@, w@),
{
    let wl = w.unicode_len();
    if wl > v.len() {
        return false;
    }
    range_eq_str(v, 0, wl, w)
}

pub fn all_digits_exec(v: &Vec<char>) -> (b: bool)
    ensures
        b == all_digit_chars(v@),
{
    let n = v.len();
    let mut i: usize = 0;
    while i < n
        invariant
            n == v@.len(),
            i <= n,
            forall|k: int| 0 <= k < i ==> is_digit_char(#[trigger] v@[k]),
        decreases n - i,
    {
        if !digit_char(v[i]) {
            return false;
        }
        i = i + 1;
    }
    true
}

/// The longest whitespace-only prefix removed.
pub open spec fn trim_start_spec(s: Seq<char>) -> Seq<char>
    decreases s.len(),
{
    if s.len() > 0 && is_space_char(s[0]) {
        trim_start_spec(s.drop_first())
    } else {
        s
    }
}

/// The longest whitespace-only suffix removed.
pub open spec fn trim_end_spec(s: Seq<char>) -> Seq<char>
    decreases s.len(),
{
    if s.len() > 0 && is_space_char(s.last()) {
        trim_end_spec(s.drop_last())
    } else {
        s
    }
}

/// Whitespace stripped from both ends.
pub open spec fn trim_spec(s: Seq<char>) -> Seq<char> {
    trim_end_spec(trim_start_spec(s))
}

/// The bounds `(a, b)` of the whitespace-trimmed middle of `v`.
pub fn trim_bounds(v: &Vec<char>) -> (r: (usize, usize))
    ensures
        r.0 <= r.1 <= v@.len(),
        v@.subrange(r.0 as int, r.1 as int) == trim_spec(v@),
{
    let n = v.len();
    let mut a: usize = 0;
    assert(v@.skip(0) =~= v@);
    while a < n && space_char(v[a])
        invariant
            n == v@.len(),
            a <= n,
            trim_start_spec(v@) == trim_start_spec(v@.skip(a as int)),
        decreases n - a,
    {
        proof {
            let t = v@.skip(a as int);
            assert(t[0] == v@[a as int]);
            assert(t.drop_first() =~= v@.skip(a + 1));
        }
        a = a + 1;
    }
    proof {
        let t = v@.skip(a as int);
        if t.len() > 0 {
            assert(t[0] == v@[a as int]);
        }
        assert(trim_start_spec(v@) == t);
    }
    let mut b: usize = n;
    while b > a && space_char(v[b - 1])
        invariant
            a <= b <= n,
            n == v@.len(),
            trim_start_spec(v@) == v@.skip(a as int),
            trim_end_spec(v@.subrange(a as int, n as int)) == trim_end_spec(
                v@.subrange(a as int, b as int),
            ),
            b > a ==> !is_space_char(v@[a as int]),
        decreases b,
    {
        proof {
            let t = v@.subrange(a as int, b as int);
            assert(t.last() == v@[b - 1]);
            assert(t.drop_last() =~= v@.subrange(a as int, b - 1));
        }
        b = b - 1;
    }
    proof {
        let t = v@.subrange(a as int, b as int);
        if t.len() > 0 {
            assert(t.last() == v@[b - 1]);
        }
        assert(trim_end_spec(v@.subrange(a as int, b as int)) == t);
        assert(v@.skip(a as int) =~= v@.subrange(a as int, n as int));
    }
    (a, b)
}

/// Whitespace trimmed from both ends of a character vector.
pub fn trim_chars(v: &Vec<char>) -> (r: Vec<char>)
    ensures
        r@ == trim_spec(v@),
{
    let bounds = trim_bounds(v);
    let a = bounds.0;
    let b = bounds.1;
    let mut r: Vec<char> = Vec::new();
    let mut k: usize = a;
    while k < b
        invariant
            a <= k <= b <= v@.len(),
            r@ == v@.subrange(a as int, k as int),
        decreases b - k,
    {
        r.push(v[k]);
        assert(r@ =~= v@.subrange(a as int, k + 1));
        k = k + 1;
    }
    r
}

/// Branch-description separators.
pub open spec fn is_sep_char(c: char) -> bool {
    c == '-' || c == '_' || c == '/'
}

pub fn sep_char(c: char) -> (b: bool)
    ensures
        b == is_sep_char(c),
{
    c == '-' || c == '_' || c == '/'
}

/// Length of the maximal separator-free prefix of `s`.
pub open spec fn piece_run_len(s: Seq<char>) -> nat
    decreases s.len(),
{
    if s.len() > 0 && !is_sep_char(s[0]) {
        1 + piece_run_len(s.drop_first())
    } else {
        0
    }
}

pub proof fn lemma_piece_run_len(s: Seq<char>)
    ensures
        piece_run_len(s) <= s.len(),
        forall|i: int| 0 <= i < piece_run_len(s) ==> !is_sep_char(#[trigger] s[i]),
        piece_run_len(s) < s.len() ==> is_sep_char(s[piece_run_len(s) as int]),
    decreases s.len(),
{
    if s.len() > 0 && !is_sep_char(s[0]) {
        lemma_piece_run_len(s.drop_first());
        assert forall|i: int| 0 <= i < piece_run_len(s) implies !is_sep_char(#[trigger] s[i]) by {
            if i > 0 {
                assert(s.drop_first()[i - 1] == s[i]);
            }
        }
        if piece_run_len(s) < s.len() {
            assert(s.drop_first()[piece_run_len(s.drop_first()) as int]
                == s[piece_run_len(s) as int]);
        }
    }
}

pub proof fn lemma_piece_run_len_unique(t: Seq<char>, m: int)
    requires
        0 <= m <= t.len(),
        forall|k: int| 0 <= k < m ==> !is_sep_char(#[trigger] t[k]),
        m == t.len() || is_sep_char(t[m]),
    ensures
        piece_run_len(t) == m,
    decreases t.len(),
{
    if m == 0 {
    } else {
        assert(!is_sep_char(t[0]));
        assert forall|k: int| 0 <= k < m - 1 implies !is_sep_char(#[trigger] t.drop_first()[k]) by {
            assert(t.drop_first()[k] == t[k + 1]);
        }
        if m - 1 < t.drop_first().len() {
            assert(t.drop_first()[m - 1] == t[m]);
        }
        lemma_piece_run_len_unique(t.drop_first(), m - 1);
    }
}

/// Split on `-`, `_` and `/`, keeping empty pieces, as the branch-name
/// description extraction does.
pub open spec fn split_seps(s: Seq<char>) -> Seq<Seq<char>>
    decreases s.len(),
    via split_seps_decreases
{
    let n = piece_run_len(s) as int;
    if n == s.len() {
        seq![s]
    } else {
        seq![s.subrange(0, n)] + split_seps(s.skip(n + 1))
    }
}

#[via_fn]
proof fn split_seps_decreases(s: Seq<char>) {
    lemma_piece_run_len(s);
}

/// Unfolding step of `split_seps` for the piece `[i, j)`.
pub proof fn lemma_split_seps_step(s: Seq<char>, i: int, j: int)
    requires
        0 <= i <= j <= s.len(),
        forall|k: int| i <= k < j ==> !is_sep_char(#[trigger] s[k]),
        j == s.len() || is_sep_char(s[j]),
    ensures
        split_seps(s.skip(i)) == if j == s.len() {
            seq![s.subrange(i, j)]
        } else {
            seq![s.subrange(i, j)] + split_seps(s.skip(j + 1))
        },
{
    let t = s.skip(i);
    assert forall|k: int| 0 <= k < j - i implies !is_sep_char(#[trigger] t[k]) by {
        assert(t[k] == s[i + k]);
    }
    if j - i < t.len() {
        assert(t[j - i] == s[j]);
    }
    lemma_piece_run_len_unique(t, j - i);
    assert(t.subrange(0, j - i) =~= s.subrange(i, j));
    if j < s.len() {
        assert(t.skip(j - i + 1) =~= s.skip(j + 1));
    } else {
        assert(t.subrange(0, j - i) =~= t);
    }
}

/// The pieces of `v` between `-`, `_` and `/` separators, empties kept.
pub fn split_seps_chars(v: &Vec<char>) -> (out: Vec<Vec<char>>)
    ensures
        out.deep_view() == split_seps(v@),
{
    let n = v.len();
    let mut out: Vec<Vec<char>> = Vec::new();
    let mut i: usize = 0;
    assert(v@.skip(0) =~= v@);
    loop
        invariant_except_break
            i <= n,
            n == v@.len(),
            split_seps(v@) == out.deep_view() + split_seps(v@.skip(i as int)),
        ensures
            out.deep_view() == split_seps(v@),
        decreases n - i,
    {
        let mut j: usize = i;
        while j < n && !sep_char(v[j])
            invariant
                i <= j <= n,
                n == v@.len(),
                forall|k: int| i <= k < j ==> !is_sep_char(#[trigger] v@[k]),
            decreases n - j,
        {
            j = j + 1;
        }
        proof {
            lemma_split_seps_step(v@, i as int, j as int);
        }
        let mut piece: Vec<char> = Vec::new();
        let mut k: usize = i;
        while k < j
            invariant
                i <= k <= j <= v@.len(),
                piece@ == v@.subrange(i as int, k as int),
            decreases j - k,
        {
            piece.push(v[k]);
            assert(piece@ =~= v@.subrange(i as int, k + 1));
            k = k + 1;
        }
        let ghost pre = out.deep_view();
        out.push(piece);
        proof {
            assert(out.deep_view() =~~= pre.push(v@.subrange(i as int, j as int)));
        }
        if j == n {
            proof {
                assert(out.deep_view() =~~= pre + seq![v@.subrange(i as int, j as int)]);
            }
            break ;
        }
        proof {
            assert(out.deep_view() + split_seps(v@.skip(j + 1)) =~~= pre + (seq![
                v@.subrange(i as int, j as int),
            ] + split_seps(v@.skip(j + 1))));
        }
        i = j + 1;
    }
    out
}

/// The whitespace-separated tokens of `v`, as vectors.
pub fn split_ws_tokens(v: &Vec<char>) -> (out: Vec<Vec<char>>)
    ensures
        out.deep_view() == split_ws(v@),
{
    let n = v.len();
    let mut out: Vec<Vec<char>> = Vec::new();
    let mut i: usize = 0;
    assert(v@.skip(0) =~= v@);
    assert(split_ws(v@) =~~= out.deep_view() + split_ws(v@.skip(0)));
    while i < n
        invariant
            i <= n,
            n == v@.len(),
            split_ws(v@) == out.deep_view() + split_ws(v@.skip(i as int)),
        decreases n - i,
    {
        if space_char(v[i]) {
            proof {
                lemma_split_space(v@, i as int);
            }
            i = i + 1;
        } else {
            let mut j: usize = i + 1;
            while j < n && !space_char(v[j])
                invariant
                    i < j <= n,
                    n == v@.len(),
                    forall|k: int| i <= k < j ==> !is_space_char(#[trigger] v@[k]),
                decreases n - j,
            {
                j = j + 1;
            }
            proof {
                lemma_split_token(v@, i as int, j as int);
            }
            let mut token: Vec<char> = Vec::new();
            let mut k: usize = i;
            while k < j
                invariant
                    i <= k <= j <= v@.len(),
                    token@ == v@.subrange(i as int, k as int),
                decreases j - k,
            {
                token.push(v[k]);
                assert(token@ =~= v@.subrange(i as int, k + 1));
                k = k + 1;
            }
            let ghost pre = out.deep_view();
            out.push(token);
            proof {
                assert(out.deep_view() =~~= pre + seq![v@.subrange(i as int, j as int)]);
                assert(out.deep_view() + split_ws(v@.skip(j as int)) =~~= pre + (seq![
                    v@.subrange(i as int, j as int),
                ] + split_ws(v@.skip(j as int))));
            }
            i = j;
        }
    }
    proof {
        assert(v@.skip(n as int) =~= Seq::<char>::empty());
        assert(out.deep_view() =~~= split_ws(v@));
    }
    out
}

/// Join the pieces of `tokens` from index `start` on with single spaces.
pub fn join_from(tokens: &Vec<Vec<char>>, start: usize) -> (out: Vec<char>)
    requires
        start <= tokens@.len(),
    ensures
        out@ == join_tokens(tokens.deep_view().skip(start as int)),
{
    let n = tokens.len();
    let mut out: Vec<char> = Vec::new();
    let mut t: usize = start;
    let ghost mut done: Seq<Seq<char>> = Seq::empty();
    while t < n
        invariant
            start <= t <= n,
            n == tokens@.len(),
            done =~= tokens.deep_view().subrange(start as int, t as int),
            out@ == join_tokens(done),
        decreases n - t,
    {
        let ghost pre = out@;
        let ghost token = tokens.deep_view()[t as int];
        if t > start {
            out.push(' ');
        } else {
            assert(done.len() == 0);
        }
        let piece = &tokens[t];
        let ghost mid = out@;
        let mut k: usize = 0;
        let m = piece.len();
        while k < m
            invariant
                k <= m,
                m == piece@.len(),
                out@ == mid + piece@.subrange(0, k as int),
            decreases m - k,
        {
            out.push(piece[k]);
            assert(out@ =~= mid + piece@.subrange(0, k + 1));
            k = k + 1;
        }
        proof {
            assert(piece@.subrange(0, m as int) =~= token);
            lemma_join_push(done, token);
            if done.len() == 0 {
                assert(out@ =~= token);
            } else {
                assert(out@ =~= join_tokens(done) + seq![' '] + token);
            }
            done = done.push(token);
            assert(done =~= tokens.deep_view().subrange(start as int, t + 1));
        }
        t = t + 1;
    }
    proof {
        assert(tokens.deep_view().subrange(start as int, n as int) =~= tokens.deep_view().skip(
            start as int,
        ));
    }
    out
}

} // verus!
