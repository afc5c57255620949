//! What ward reads out of git's command output.
//!
//! Running git is the caller's part; each function here takes the text that a
//! git command printed on stdout and computes what ward keeps from it. Every
//! contract is stated over `lines`, `trim`, `tokens` and the other text
//! models of `crate::text`.
use vstd::prelude::*;
use crate::text::{
    chars_eq, ends_with, find_char, has_suffix, to_lower, strip_prefix_keep, strip_prefix_or_keep,
    strip_suffix_keep, strip_suffix_or_keep, to_lowercase, idx_of, split_tokens, string_views, tokens, trim, trim_chars,
    chars_of, has_prefix, lines, parse_u64, parse_u64_chars, slice, split_at_char, split_char,
    split_lines, starts_with, string_of, views, concat, decimal, spec_decimal,
};
use crate::paths::{answers_as, join, spec_join};
use crate::text::{is_ws, lemma_idx_of, lemma_lead_ws, lemma_trail_ws};

verus! {

// ---------------------------------------------------------------------------
// Branches
// ---------------------------------------------------------------------------

/// A local branch, its upstream if it has one, and how far it is ahead of it.
pub struct BranchStatus {
    pub name: String,
    pub upstream: Option<String>,
    pub ahead: u64,
}

pub open spec fn opt_view(o: Option<String>) -> Option<Seq<char>> {
    match o {
        Some(s) => Some(s@),
        None => None,
    }
}

pub open spec fn opt_str_view(o: Option<&str>) -> Option<Seq<char>> {
    match o {
        Some(s) => Some(s@),
        None => None,
    }
}

impl View for BranchStatus {
    type V = (Seq<char>, Option<Seq<char>>, u64);

    open spec fn view(&self) -> (Seq<char>, Option<Seq<char>>, u64) {
        (self.name@, opt_view(self.upstream), self.ahead)
    }
}

pub open spec fn branch_views(v: Seq<BranchStatus>) -> Seq<(Seq<char>, Option<Seq<char>>, u64)> {
    v.map_values(|b: BranchStatus| b@)
}

/// Number of leading `c` (`trim_start_matches(c)`).
pub open spec fn lead_count(s: Seq<char>, c: char) -> nat
    decreases s.len(),
{
    if s.len() > 0 && s[0] == c {
        1 + lead_count(s.drop_first(), c)
    } else {
        0
    }
}

/// Number of trailing `c` (`trim_end_matches(c)`).
pub open spec fn trail_count(s: Seq<char>, c: char) -> nat
    decreases s.len(),
{
    if s.len() > 0 && s.last() == c {
        1 + trail_count(s.drop_last(), c)
    } else {
        0
    }
}

/// `s.trim_start_matches('[').trim_end_matches(']')`.
pub open spec fn unbracket(s: Seq<char>) -> Seq<char> {
    let t = s.skip(lead_count(s, '[') as int);
    t.take(t.len() - trail_count(t, ']'))
}

/// Index of the first `, ` in `s`, or `s.len()`.
pub open spec fn idx_of_sep(s: Seq<char>) -> nat
    decreases s.len(),
{
    if s.len() < 2 {
        s.len()
    } else if s[0] == ',' && s[1] == ' ' {
        0
    } else {
        1 + idx_of_sep(s.drop_first())
    }
}

/// `s.split(", ")`.
pub open spec fn split_sep(s: Seq<char>) -> Seq<Seq<char>>
    decreases s.len(),
{
    let i = idx_of_sep(s);
    proof {
        lemma_idx_of_sep_le(s);
    }
    if i >= s.len() {
        seq![s]
    } else {
        seq![s.take(i as int)] + split_sep(s.skip(i + 2 as int))
    }
}

/// The count after the first `ahead ` part, 0 when it does not parse, or 0
/// when no part starts with `ahead `.
pub open spec fn ahead_of_parts(parts: Seq<Seq<char>>) -> u64
    decreases parts.len(),
{
    if parts.len() == 0 {
        0
    } else if starts_with(parts[0], "ahead "@) {
        match parse_u64(parts[0].skip(6)) {
            Some(n) => n,
            None => 0,
        }
    } else {
        ahead_of_parts(parts.drop_first())
    }
}

/// What `%(upstream:track)` (such as `[ahead 2, behind 1]`) says of commits ahead.
pub open spec fn spec_parse_ahead(s: Seq<char>) -> u64 {
    ahead_of_parts(split_sep(unbracket(s)))
}

/// One line of `git for-each-ref --format=%(refname:short)|%(upstream:short)|%(upstream:track)`.
pub open spec fn branch_of_line(l: Seq<char>) -> Option<(Seq<char>, Option<Seq<char>>, u64)> {
    let parts = split_char(l, '|');
    if parts.len() < 2 {
        None
    } else {
        Some(
            (
                parts[0],
                if parts[1].len() == 0 {
                    None
                } else {
                    Some(parts[1])
                },
                spec_parse_ahead(
                    if parts.len() > 2 {
                        parts[2]
                    } else {
                        Seq::<char>::empty()
                    },
                ),
            ),
        )
    }
}

pub open spec fn spec_branches(text: Seq<char>) -> Seq<(Seq<char>, Option<Seq<char>>, u64)> {
    lines(text).filter_map(|l: Seq<char>| branch_of_line(l))
}

pub proof fn lemma_idx_of_sep_le(s: Seq<char>)
    ensures
        idx_of_sep(s) <= s.len(),
        idx_of_sep(s) < s.len() ==> idx_of_sep(s) + 2 <= s.len(),
    decreases s.len(),
{
    if s.len() >= 2 && !(s[0] == ',' && s[1] == ' ') {
        lemma_idx_of_sep_le(s.drop_first());
    }
}

proof fn lemma_idx_of_sep(s: Seq<char>, i: int)
    requires
        0 <= i <= s.len(),
        forall|j: int| 0 <= j < i && j + 1 < s.len() ==> !(#[trigger] s[j] == ',' && s[j + 1] == ' '),
        (i + 1 < s.len() && s[i] == ',' && s[i + 1] == ' ') || i == s.len() || (i + 1 == s.len()
            && i > 0) || (i + 1 == s.len() && s.len() < 2),
    ensures
        idx_of_sep(s) == (if i + 1 < s.len() { i } else { s.len() as int }),
    decreases i,
{
    if s.len() >= 2 && i > 0 {
        lemma_idx_of_sep(s.drop_first(), i - 1);
    }
}

fn lead_count_exec(s: &Vec<char>, c: char) -> (n: usize)
    ensures
        n == lead_count(s@, c),
        n <= s.len(),
{
    let mut i: usize = 0;
    while i < s.len() && s[i] == c
        invariant
            i <= s.len(),
            forall|j: int| 0 <= j < i ==> s@[j] == c,
        decreases s.len() - i,
    {
        i = i + 1;
    }
    proof {
        lemma_lead_count(s@, c, i as int);
    }
    i
}

proof fn lemma_lead_count(s: Seq<char>, c: char, i: int)
    requires
        0 <= i <= s.len(),
        forall|j: int| 0 <= j < i ==> s[j] == c,
        i == s.len() || s[i] != c,
    ensures
        lead_count(s, c) == i,
    decreases i,
{
    if i > 0 {
        lemma_lead_count(s.drop_first(), c, i - 1);
    }
}

proof fn lemma_trail_count(s: Seq<char>, c: char, k: int)
    requires
        0 <= k <= s.len(),
        forall|j: int| s.len() - k <= j < s.len() ==> s[j] == c,
        k == s.len() || s[s.len() - k - 1] != c,
    ensures
        trail_count(s, c) == k,
    decreases k,
{
    if k > 0 {
        lemma_trail_count(s.drop_last(), c, k - 1);
    }
}

fn unbracket_exec(s: &Vec<char>) -> (r: Vec<char>)
    ensures
        r@ == unbracket(s@),
{
    let a = lead_count_exec(s, '[');
    let t = slice(s, a, s.len());
    assert(t@ =~= s@.skip(a as int));
    let mut b = t.len();
    while b > 0 && t[b - 1] == ']'
        invariant
            b <= t.len(),
            forall|j: int| b <= j < t.len() ==> t@[j] == ']',
        decreases b,
    {
        b = b - 1;
    }
    proof {
        lemma_trail_count(t@, ']', (t.len() - b) as int);
    }
    let r = slice(&t, 0, b);
    assert(r@ =~= t@.take(b as int));
    r
}

/// `s.split(", ")`.
fn split_sep_exec(s: &Vec<char>) -> (res: Vec<Vec<char>>)
    ensures
        views(res@) == split_sep(s@),
{
    let mut res: Vec<Vec<char>> = Vec::new();
    let mut pos: usize = 0;
    assert(s@.skip(0) =~= s@);
    loop
        invariant_except_break
            views(res@) + split_sep(s@.skip(pos as int)) == split_sep(s@),
        invariant
            pos <= s.len(),
        ensures
            views(res@) == split_sep(s@),
        decreases s.len() - pos,
    {
        let ghost t = s@.skip(pos as int);
        let ghost old_res = res@;
        let mut i = pos;
        while i < s.len() && i + 1 < s.len() && !(s[i] == ',' && s[i + 1] == ' ')
            invariant
                pos <= i <= s.len(),
                forall|j: int| pos <= j < i && j + 1 < s.len() ==> !(#[trigger] s@[j] == ',' && s@[j + 1] == ' '),
            decreases s.len() - i,
        {
            i = i + 1;
        }
        let found = i < s.len() && i + 1 < s.len();
        proof {
            if found {
                lemma_idx_of_sep(t, i - pos);
            } else {
                if i + 1 == s.len() {
                    lemma_idx_of_sep(t, i - pos);
                } else {
                    lemma_idx_of_sep(t, t.len() as int);
                }
            }
        }
        if !found {
            let piece = slice(s, pos, s.len());
            proof {
                assert(piece@ =~= t);
                lemma_idx_of_sep_le(t);
                assert(split_sep(t) == seq![t]);
                assert(views(res@.push(piece)) =~= views(res@).push(piece@));
            }
            res.push(piece);
            assert(views(old_res) + split_sep(t) =~= views(res@));
            break;
        }
        let piece = slice(s, pos, i);
        proof {
            assert(piece@ =~= t.take(i - pos));
            assert(t.skip(i - pos + 2) =~= s@.skip(i + 2));
            assert(views(res@.push(piece)) =~= views(res@).push(piece@));
        }
        res.push(piece);
        assert(views(old_res) + split_sep(t) =~= views(res@) + split_sep(s@.skip(i + 2)));
        pos = i + 2;
    }
    res
}

/// Commits ahead of upstream, read from a `%(upstream:track)` field such as
/// `[ahead 2, behind 1]`; 0 when there is no `ahead` part or it does not parse.
pub fn parse_ahead(s: &str) -> (n: u64)
    ensures
        n == spec_parse_ahead(s@),
{
    let cs = chars_of(s);
    let inner = unbracket_exec(&cs);
    let parts = split_sep_exec(&inner);
    let prefix = chars_of("ahead ");
    let mut k: usize = 0;
    assert(views(parts@).skip(0) =~= views(parts@));
    while k < parts.len()
        invariant
            k <= parts.len(),
            prefix@ == "ahead "@,
            ahead_of_parts(views(parts@).skip(k as int)) == spec_parse_ahead(s@),
            views(parts@) == split_sep(unbracket(s@)),
        decreases parts.len() - k,
    {
        let ghost rest = views(parts@).skip(k as int);
        assert(rest[0] == parts@[k as int]@);
        if has_prefix(&parts[k], &prefix) {
            let num = slice(&parts[k], prefix.len(), parts[k].len());
            proof {
                reveal_strlit("ahead ");
                assert(num@ =~= rest[0].skip(6));
            }
            return match parse_u64_chars(&num) {
                Some(n) => n,
                None => 0,
            };
        }
        assert(rest.drop_first() =~= views(parts@).skip(k + 1));
        k = k + 1;
    }
    0
}

/// The branches listed by
/// `git for-each-ref --format=%(refname:short)|%(upstream:short)|%(upstream:track) refs/heads`.
pub fn parse_branches(text: &str) -> (res: Vec<BranchStatus>)
    ensures
        branch_views(res@) == spec_branches(text@),
{
    let cs = chars_of(text);
    let ls = split_lines(&cs);
    let mut res: Vec<BranchStatus> = Vec::new();
    let mut k: usize = 0;
    let ghost f = |l: Seq<char>| branch_of_line(l);
    while k < ls.len()
        invariant
            k <= ls.len(),
            views(ls@) == lines(text@),
            branch_views(res@) == views(ls@).take(k as int).filter_map(f),
            f == (|l: Seq<char>| branch_of_line(l)),
        decreases ls.len() - k,
    {
        proof {
            views(ls@).lemma_filter_map_take_succ(f, k as int);
        }
        let parts = split_at_char(&ls[k], '|');
        if parts.len() >= 2 {
            let name = string_of(parts[0].as_slice());
            let upstream = if parts[1].len() == 0 {
                None
            } else {
                Some(string_of(parts[1].as_slice()))
            };
            let ahead = if parts.len() > 2 {
                parse_ahead(&string_of(parts[2].as_slice()))
            } else {
                parse_ahead("")
            };
            proof {
                reveal_strlit("");
                assert(""@ =~= Seq::<char>::empty());
            }
            let b = BranchStatus { name, upstream, ahead };
            proof {
                assert(views(parts@)[0] == parts@[0]@);
                assert(views(parts@)[1] == parts@[1]@);
                if parts.len() > 2 {
                    assert(views(parts@)[2] == parts@[2]@);
                }
                assert(Some(b@) == branch_of_line(views(ls@)[k as int]));
                assert(branch_views(res@.push(b)) =~= branch_views(res@).push(b@));
            }
            res.push(b);
        }
        k = k + 1;
    }
    assert(views(ls@).take(ls.len() as int) =~= views(ls@));
    res
}

// ---------------------------------------------------------------------------
// Remotes
// ---------------------------------------------------------------------------

/// The (name, url) that a line of `git remote -v` holds: its first two tokens.
pub open spec fn remote_of_line(l: Seq<char>) -> Option<(Seq<char>, Seq<char>)> {
    let t = tokens(l);
    if t.len() >= 2 {
        Some((t[0], t[1]))
    } else {
        None
    }
}

/// The key by which duplicate remote entries are recognised: `name:url`.
pub open spec fn remote_key(p: (Seq<char>, Seq<char>)) -> Seq<char> {
    p.0 + seq![':'] + p.1
}

pub open spec fn key_seen(s: Seq<(Seq<char>, Seq<char>)>, k: Seq<char>) -> bool {
    exists|i: int| 0 <= i < s.len() && remote_key(#[trigger] s[i]) == k
}

/// The entries of `s` whose key did not occur earlier, in order.
pub open spec fn first_by_key(s: Seq<(Seq<char>, Seq<char>)>) -> Seq<(Seq<char>, Seq<char>)>
    decreases s.len(),
{
    if s.len() == 0 {
        seq![]
    } else if key_seen(s.drop_last(), remote_key(s.last())) {
        first_by_key(s.drop_last())
    } else {
        first_by_key(s.drop_last()).push(s.last())
    }
}

pub open spec fn spec_remote_urls(text: Seq<char>) -> Seq<(Seq<char>, Seq<char>)> {
    first_by_key(lines(text).filter_map(|l: Seq<char>| remote_of_line(l)))
}

pub open spec fn pair_views(v: Seq<(String, String)>) -> Seq<(Seq<char>, Seq<char>)> {
    v.map_values(|p: (String, String)| (p.0@, p.1@))
}

/// The remotes listed by `git remote -v`, each (name, url) once, in the order
/// of their first line.
pub fn parse_remote_urls(text: &str) -> (res: Vec<(String, String)>)
    ensures
        pair_views(res@) == spec_remote_urls(text@),
{
    let cs = chars_of(text);
    let ls = split_lines(&cs);
    let ghost f = |l: Seq<char>| remote_of_line(l);
    let mut res: Vec<(String, String)> = Vec::new();
    // the keys of every entry read so far, duplicates included
    let mut seen: Vec<Vec<char>> = Vec::new();
    let ghost mut all: Seq<(Seq<char>, Seq<char>)> = seq![];
    let mut k: usize = 0;
    while k < ls.len()
        invariant
            k <= ls.len(),
            views(ls@) == lines(text@),
            f == (|l: Seq<char>| remote_of_line(l)),
            all == views(ls@).take(k as int).filter_map(f),
            pair_views(res@) == first_by_key(all),
            views(seen@) == all.map_values(|p: (Seq<char>, Seq<char>)| remote_key(p)),
        decreases ls.len() - k,
    {
        proof {
            views(ls@).lemma_filter_map_take_succ(f, k as int);
        }
        let toks = split_tokens(&ls[k]);
        assert(views(ls@)[k as int] == ls@[k as int]@);
        if toks.len() >= 2 {
            let ghost entry = (toks@[0]@, toks@[1]@);
            assert(views(toks@)[0] == toks@[0]@ && views(toks@)[1] == toks@[1]@);
            assert(f(views(ls@)[k as int]) == Some(entry));
            let mut key = toks[0].clone();
            key.push(':');
            let mut j: usize = 0;
            while j < toks[1].len()
                invariant
                    toks.len() >= 2,
                    j <= toks[1].len(),
                    key@ == toks@[0]@ + seq![':'] + toks@[1]@.take(j as int),
                decreases toks[1].len() - j,
            {
                key.push(toks[1][j]);
                j = j + 1;
                assert(key@ =~= toks@[0]@ + seq![':'] + toks@[1]@.take(j as int));
            }
            assert(toks@[1]@.take(j as int) =~= toks@[1]@);
            assert(key@ == remote_key(entry));
            // was this key seen before?
            assert(views(seen@).len() == seen.len());
            let mut dup = false;
            let mut m: usize = 0;
            while m < seen.len()
                invariant
                    m <= seen.len(),
                    views(seen@) == all.map_values(|p: (Seq<char>, Seq<char>)| remote_key(p)),
                    seen.len() == all.len(),
                    dup == (exists|i: int| 0 <= i < m && remote_key(#[trigger] all[i]) == key@),
                decreases seen.len() - m,
            {
                assert(views(seen@)[m as int] == seen@[m as int]@);
                assert(all.map_values(|p: (Seq<char>, Seq<char>)| remote_key(p))[m as int]
                    == remote_key(all[m as int]));
                if chars_eq(&seen[m], &key) {
                    dup = true;
                }
                m = m + 1;
            }
            assert(dup == key_seen(all, key@));
            let ghost old_all = all;
            proof {
                all = all.push(entry);
                assert(all.drop_last() =~= old_all);
                assert(all.last() == entry);
            }
            if !dup {
                let pair = (string_of(toks[0].as_slice()), string_of(toks[1].as_slice()));
                assert(pair_views(res@.push(pair)) =~= pair_views(res@).push((pair.0@, pair.1@)));
                res.push(pair);
            }
            assert(views(seen@.push(key)) =~= views(seen@).push(key@));
            seen.push(key);
            assert(views(seen@) =~= all.map_values(|p: (Seq<char>, Seq<char>)| remote_key(p)));
        } else {
            assert(f(views(ls@)[k as int]) is None);
        }
        k = k + 1;
    }
    assert(views(ls@).take(ls.len() as int) =~= views(ls@));
    res
}

// ---------------------------------------------------------------------------
// Single values
// ---------------------------------------------------------------------------

/// The whole output trimmed, when that is not empty (`git remote get-url
/// origin`, `git rev-parse HEAD`).
pub open spec fn spec_trimmed_value(text: Seq<char>) -> Option<Seq<char>> {
    if trim(text).len() > 0 {
        Some(trim(text))
    } else {
        None
    }
}

pub fn trimmed_value(text: &str) -> (r: Option<String>)
    ensures
        opt_view(r) == spec_trimmed_value(text@),
{
    let cs = chars_of(text);
    let t = trim_chars(&cs);
    if t.len() > 0 {
        Some(string_of(t.as_slice()))
    } else {
        None
    }
}

/// The first line trimmed, when there is one and it is not blank
/// (`git rev-list --max-parents=0 HEAD`).
pub open spec fn spec_first_line_value(text: Seq<char>) -> Option<Seq<char>> {
    let ls = lines(text);
    if ls.len() > 0 && trim(ls[0]).len() > 0 {
        Some(trim(ls[0]))
    } else {
        None
    }
}

pub fn first_line_value(text: &str) -> (r: Option<String>)
    ensures
        opt_view(r) == spec_first_line_value(text@),
{
    let cs = chars_of(text);
    let ls = split_lines(&cs);
    if ls.len() == 0 {
        return None;
    }
    assert(views(ls@)[0] == ls@[0]@);
    let t = trim_chars(&ls[0]);
    if t.len() > 0 {
        Some(string_of(t.as_slice()))
    } else {
        None
    }
}

/// A count printed alone on stdout (`git rev-list --count HEAD`); 0 when it
/// does not parse.
pub open spec fn spec_count_value(text: Seq<char>) -> u64 {
    match parse_u64(trim(text)) {
        Some(n) => n,
        None => 0,
    }
}

pub fn count_value(text: &str) -> (n: u64)
    ensures
        n == spec_count_value(text@),
{
    let cs = chars_of(text);
    let t = trim_chars(&cs);
    match parse_u64_chars(&t) {
        Some(n) => n,
        None => 0,
    }
}

// ---------------------------------------------------------------------------
// Counting lines
// ---------------------------------------------------------------------------

/// Number of lines (`git stash list`, `git tag --list`).
pub fn count_lines(text: &str) -> (n: u64)
    ensures
        n == lines(text@).len(),
{
    let cs = chars_of(text);
    let ls = split_lines(&cs);
    ls.len() as u64
}

pub open spec fn is_blank(l: Seq<char>) -> bool {
    trim(l).len() == 0
}

/// Number of lines that are not blank (`git submodule status`).
pub fn count_nonblank_lines(text: &str) -> (n: u64)
    ensures
        n == lines(text@).filter(|l: Seq<char>| !is_blank(l)).len(),
{
    let cs = chars_of(text);
    let ls = split_lines(&cs);
    let ghost p = |l: Seq<char>| !is_blank(l);
    let mut n: usize = 0;
    let mut k: usize = 0;
    while k < ls.len()
        invariant
            k <= ls.len(),
            views(ls@) == lines(text@),
            p == (|l: Seq<char>| !is_blank(l)),
            n == views(ls@).take(k as int).filter(p).len(),
            n <= k,
        decreases ls.len() - k,
    {
        proof {
            let x = views(ls@)[k as int];
            assert(views(ls@).take(k + 1) =~= views(ls@).take(k as int).push(x));
            views(ls@).take(k as int).lemma_filter_push(x, p);
        }
        assert(views(ls@)[k as int] == ls@[k as int]@);
        let t = trim_chars(&ls[k]);
        if t.len() > 0 {
            n = n + 1;
        }
        k = k + 1;
    }
    assert(views(ls@).take(ls.len() as int) =~= views(ls@));
    n as u64
}

/// Number of distinct trimmed lines (`git log --format=%ae`: the authors).
pub fn count_distinct_lines(text: &str) -> (n: u64)
    ensures
        n == lines(text@).map_values(|l: Seq<char>| trim(l)).to_set().len(),
{
    let cs = chars_of(text);
    let ls = split_lines(&cs);
    let ghost tr = |l: Seq<char>| trim(l);
    let mut distinct: Vec<Vec<char>> = Vec::new();
    let mut k: usize = 0;
    while k < ls.len()
        invariant
            k <= ls.len(),
            views(ls@) == lines(text@),
            tr == (|l: Seq<char>| trim(l)),
            views(distinct@).no_duplicates(),
            views(distinct@).to_set() == views(ls@).take(k as int).map_values(tr).to_set(),
            distinct.len() <= k,
        decreases ls.len() - k,
    {
        assert(views(ls@)[k as int] == ls@[k as int]@);
        let t = trim_chars(&ls[k]);
        let mut present = false;
        let mut m: usize = 0;
        while m < distinct.len()
            invariant
                m <= distinct.len(),
                present == (exists|i: int| 0 <= i < m && #[trigger] views(distinct@)[i] == t@),
            decreases distinct.len() - m,
        {
            assert(views(distinct@)[m as int] == distinct@[m as int]@);
            if chars_eq(&distinct[m], &t) {
                present = true;
            }
            m = m + 1;
        }
        proof {
            let prev = views(ls@).take(k as int).map_values(tr);
            let next = views(ls@).take(k + 1).map_values(tr);
            assert(next =~= prev.push(t@));
            prev.lemma_push_to_set_commute(t@);
        }
        if !present {
            proof {
                assert(views(distinct@.push(t)) =~= views(distinct@).push(t@));
                views(distinct@).lemma_push_to_set_commute(t@);
                assert(!views(distinct@).contains(t@));
            }
            distinct.push(t);
        } else {
            proof {
                assert(views(distinct@).contains(t@));
                assert(views(distinct@).to_set().insert(t@) =~= views(distinct@).to_set());
            }
        }
        k = k + 1;
    }
    proof {
        assert(views(ls@).take(ls.len() as int) =~= views(ls@));
        views(distinct@).unique_seq_to_set();
        assert(views(distinct@).len() == distinct.len());
    }
    distinct.len() as u64
}

// ---------------------------------------------------------------------------
// git status --porcelain
// ---------------------------------------------------------------------------

pub open spec fn is_untracked_line(l: Seq<char>) -> bool {
    starts_with(l, seq!['?', '?', ' '])
}

pub open spec fn is_ignored_line(l: Seq<char>) -> bool {
    starts_with(l, seq!['!', '!', ' '])
}

/// A porcelain line that reports a change to a tracked file.
pub open spec fn is_tracked_change_line(l: Seq<char>) -> bool {
    !is_untracked_line(l) && !is_ignored_line(l) && !is_blank(l)
}

/// Whether `git status --porcelain` reports changes to tracked files
/// (untracked and ignored entries do not count).
pub fn has_tracked_changes(text: &str) -> (b: bool)
    ensures
        b == exists|i: int|
            0 <= i < lines(text@).len() && is_tracked_change_line(#[trigger] lines(text@)[i]),
{
    let cs = chars_of(text);
    let ls = split_lines(&cs);
    let mut k: usize = 0;
    while k < ls.len()
        invariant
            k <= ls.len(),
            views(ls@) == lines(text@),
            forall|i: int| 0 <= i < k ==> !is_tracked_change_line(#[trigger] views(ls@)[i]),
        decreases ls.len() - k,
    {
        assert(views(ls@)[k as int] == ls@[k as int]@);
        let l = &ls[k];
        let untracked = l.len() >= 3 && l[0] == '?' && l[1] == '?' && l[2] == ' ';
        let ignored = l.len() >= 3 && l[0] == '!' && l[1] == '!' && l[2] == ' ';
        proof {
            assert(untracked == is_untracked_line(l@)) by {
                if l.len() >= 3 {
                    assert(l@.take(3) =~= seq![l@[0], l@[1], l@[2]]);
                }
            }
            assert(ignored == is_ignored_line(l@)) by {
                if l.len() >= 3 {
                    assert(l@.take(3) =~= seq![l@[0], l@[1], l@[2]]);
                }
            }
        }
        let t = trim_chars(l);
        if !untracked && !ignored && t.len() > 0 {
            return true;
        }
        k = k + 1;
    }
    false
}

/// (untracked, ignored) entry counts of `git status --porcelain --ignored`.
pub fn untracked_ignored_counts(text: &str) -> (r: (u64, u64))
    ensures
        r.0 == lines(text@).filter(|l: Seq<char>| is_untracked_line(l)).len(),
        r.1 == lines(text@).filter(|l: Seq<char>| is_ignored_line(l)).len(),
{
    let cs = chars_of(text);
    let ls = split_lines(&cs);
    let ghost pu = |l: Seq<char>| is_untracked_line(l);
    let ghost pi = |l: Seq<char>| is_ignored_line(l);
    let mut u: usize = 0;
    let mut g: usize = 0;
    let mut k: usize = 0;
    while k < ls.len()
        invariant
            k <= ls.len(),
            views(ls@) == lines(text@),
            pu == (|l: Seq<char>| is_untracked_line(l)),
            pi == (|l: Seq<char>| is_ignored_line(l)),
            u == views(ls@).take(k as int).filter(pu).len(),
            g == views(ls@).take(k as int).filter(pi).len(),
            u <= k,
            g <= k,
        decreases ls.len() - k,
    {
        proof {
            let x = views(ls@)[k as int];
            assert(views(ls@).take(k + 1) =~= views(ls@).take(k as int).push(x));
            views(ls@).take(k as int).lemma_filter_push(x, pu);
            views(ls@).take(k as int).lemma_filter_push(x, pi);
        }
        assert(views(ls@)[k as int] == ls@[k as int]@);
        let l = &ls[k];
        let untracked = l.len() >= 3 && l[0] == '?' && l[1] == '?' && l[2] == ' ';
        let ignored = l.len() >= 3 && l[0] == '!' && l[1] == '!' && l[2] == ' ';
        proof {
            if l.len() >= 3 {
                assert(l@.take(3) =~= seq![l@[0], l@[1], l@[2]]);
            }
        }
        if untracked {
            u = u + 1;
        } else if ignored {
            g = g + 1;
        }
        k = k + 1;
    }
    assert(views(ls@).take(ls.len() as int) =~= views(ls@));
    (u as u64, g as u64)
}

// ---------------------------------------------------------------------------
// Lists of values
// ---------------------------------------------------------------------------

pub open spec fn worktree_of_line(l: Seq<char>) -> Option<Seq<char>> {
    if starts_with(l, "worktree "@) {
        Some(l.skip(9))
    } else {
        None
    }
}

/// The worktree paths listed by `git worktree list --porcelain`.
pub fn parse_worktree_paths(text: &str) -> (res: Vec<String>)
    ensures
        string_views(res@) == lines(text@).filter_map(|l: Seq<char>| worktree_of_line(l)),
{
    let cs = chars_of(text);
    let ls = split_lines(&cs);
    let prefix = chars_of("worktree ");
    proof {
        reveal_strlit("worktree ");
    }
    let ghost f = |l: Seq<char>| worktree_of_line(l);
    let mut res: Vec<String> = Vec::new();
    let mut k: usize = 0;
    while k < ls.len()
        invariant
            k <= ls.len(),
            views(ls@) == lines(text@),
            prefix@ == "worktree "@,
            prefix.len() == 9,
            f == (|l: Seq<char>| worktree_of_line(l)),
            string_views(res@) == views(ls@).take(k as int).filter_map(f),
        decreases ls.len() - k,
    {
        proof {
            views(ls@).lemma_filter_map_take_succ(f, k as int);
        }
        assert(views(ls@)[k as int] == ls@[k as int]@);
        if has_prefix(&ls[k], &prefix) {
            let rest = slice(&ls[k], 9, ls[k].len());
            let p = string_of(rest.as_slice());
            assert(p@ =~= ls@[k as int]@.skip(9));
            assert(string_views(res@.push(p)) =~= string_views(res@).push(p@));
            res.push(p);
        }
        k = k + 1;
    }
    assert(views(ls@).take(ls.len() as int) =~= views(ls@));
    res
}

pub open spec fn nonblank_trimmed(l: Seq<char>) -> Option<Seq<char>> {
    if trim(l).len() > 0 {
        Some(trim(l))
    } else {
        None
    }
}

/// The non-blank lines, trimmed (`git reflog show refs/stash --format=%H`).
pub fn nonblank_trimmed_lines(text: &str) -> (res: Vec<String>)
    ensures
        string_views(res@) == lines(text@).filter_map(|l: Seq<char>| nonblank_trimmed(l)),
{
    let cs = chars_of(text);
    let ls = split_lines(&cs);
    let ghost f = |l: Seq<char>| nonblank_trimmed(l);
    let mut res: Vec<String> = Vec::new();
    let mut k: usize = 0;
    while k < ls.len()
        invariant
            k <= ls.len(),
            views(ls@) == lines(text@),
            f == (|l: Seq<char>| nonblank_trimmed(l)),
            string_views(res@) == views(ls@).take(k as int).filter_map(f),
        decreases ls.len() - k,
    {
        proof {
            views(ls@).lemma_filter_map_take_succ(f, k as int);
        }
        assert(views(ls@)[k as int] == ls@[k as int]@);
        let t = trim_chars(&ls[k]);
        if t.len() > 0 {
            let p = string_of(t.as_slice());
            assert(string_views(res@.push(p)) =~= string_views(res@).push(p@));
            res.push(p);
        }
        k = k + 1;
    }
    assert(views(ls@).take(ls.len() as int) =~= views(ls@));
    res
}

/// A line of `git for-each-ref --format=%(refname) %(objectname)` cut at its
/// first space (`splitn(2, ' ')`): the name, and the rest if there was a space.
pub open spec fn split_first_space(l: Seq<char>) -> (Seq<char>, Option<Seq<char>>) {
    let i = idx_of(l, ' ');
    if i < l.len() {
        (l.take(i as int), Some(l.skip(i + 1 as int)))
    } else {
        (l, None)
    }
}

pub open spec fn ref_of_line(l: Seq<char>) -> Option<(Seq<char>, Seq<char>)> {
    let (name, rest) = split_first_space(l);
    let sha = match rest {
        Some(r) => r,
        None => Seq::<char>::empty(),
    };
    if name.len() > 0 && sha.len() > 0 {
        Some((name, sha))
    } else {
        None
    }
}

fn split_first_space_exec(l: &Vec<char>) -> (r: (Vec<char>, Option<Vec<char>>))
    ensures
        r.0@ == split_first_space(l@).0,
        r.1 is Some == split_first_space(l@).1 is Some,
        r.1 is Some ==> r.1->0@ == split_first_space(l@).1->0,
{
    let i = find_char(l, 0, ' ');
    assert(l@.skip(0) =~= l@);
    if i < l.len() {
        let a = slice(l, 0, i);
        let b = slice(l, i + 1, l.len());
        assert(a@ =~= l@.take(i as int));
        assert(b@ =~= l@.skip(i + 1));
        (a, Some(b))
    } else {
        (l.clone(), None)
    }
}

/// The (refname, sha) pairs that `git for-each-ref --format=%(refname) %(objectname)`
/// lists, leaving out lines where either is empty.
pub fn parse_ref_list(text: &str) -> (res: Vec<(String, String)>)
    ensures
        pair_views(res@) == lines(text@).filter_map(|l: Seq<char>| ref_of_line(l)),
{
    let cs = chars_of(text);
    let ls = split_lines(&cs);
    let ghost f = |l: Seq<char>| ref_of_line(l);
    let mut res: Vec<(String, String)> = Vec::new();
    let mut k: usize = 0;
    while k < ls.len()
        invariant
            k <= ls.len(),
            views(ls@) == lines(text@),
            f == (|l: Seq<char>| ref_of_line(l)),
            pair_views(res@) == views(ls@).take(k as int).filter_map(f),
        decreases ls.len() - k,
    {
        proof {
            views(ls@).lemma_filter_map_take_succ(f, k as int);
        }
        assert(views(ls@)[k as int] == ls@[k as int]@);
        let (name, rest) = split_first_space_exec(&ls[k]);
        let sha = match rest {
            Some(r) => r,
            None => Vec::new(),
        };
        if name.len() > 0 && sha.len() > 0 {
            let pair = (string_of(name.as_slice()), string_of(sha.as_slice()));
            assert(pair_views(res@.push(pair)) =~= pair_views(res@).push((pair.0@, pair.1@)));
            res.push(pair);
        }
        k = k + 1;
    }
    assert(views(ls@).take(ls.len() as int) =~= views(ls@));
    res
}

pub open spec fn stash_ref_of_line(l: Seq<char>) -> Option<(Seq<char>, Seq<char>)> {
    let (name, rest) = split_first_space(l);
    match rest {
        Some(r) => Some((trim(name), trim(r))),
        None => None,
    }
}

/// The (refname, sha) pairs of
/// `git for-each-ref --sort=refname --format=%(refname) %(objectname) refs/ward-stash/`,
/// each trimmed; lines without a space are left out.
pub fn parse_stash_refs(text: &str) -> (res: Vec<(String, String)>)
    ensures
        pair_views(res@) == lines(text@).filter_map(|l: Seq<char>| stash_ref_of_line(l)),
{
    let cs = chars_of(text);
    let ls = split_lines(&cs);
    let ghost f = |l: Seq<char>| stash_ref_of_line(l);
    let mut res: Vec<(String, String)> = Vec::new();
    let mut k: usize = 0;
    while k < ls.len()
        invariant
            k <= ls.len(),
            views(ls@) == lines(text@),
            f == (|l: Seq<char>| stash_ref_of_line(l)),
            pair_views(res@) == views(ls@).take(k as int).filter_map(f),
        decreases ls.len() - k,
    {
        proof {
            views(ls@).lemma_filter_map_take_succ(f, k as int);
        }
        assert(views(ls@)[k as int] == ls@[k as int]@);
        let (name, rest) = split_first_space_exec(&ls[k]);
        match rest {
            Some(r) => {
                let n = trim_chars(&name);
                let s = trim_chars(&r);
                let pair = (string_of(n.as_slice()), string_of(s.as_slice()));
                assert(pair_views(res@.push(pair)) =~= pair_views(res@).push((pair.0@, pair.1@)));
                res.push(pair);
            },
            None => {},
        }
        k = k + 1;
    }
    assert(views(ls@).take(ls.len() as int) =~= views(ls@));
    res
}

// ---------------------------------------------------------------------------
// Remote URLs, hooks, repository discovery
// ---------------------------------------------------------------------------

/// `s.replacen(':', "/", 1)`.
pub open spec fn replace_first_colon(s: Seq<char>) -> Seq<char> {
    let i = idx_of(s, ':');
    if i < s.len() {
        s.update(i as int, '/')
    } else {
        s
    }
}

/// `git@host:path` written `host/path` (the user part dropped, the first `:`
/// made a `/`); anything else as it is.
pub open spec fn scp_to_path(s: Seq<char>) -> Seq<char> {
    if starts_with(s, "git@"@) {
        replace_first_colon(s.skip(4))
    } else {
        s
    }
}

/// A remote URL trimmed, without a `.git` suffix, `git@host:path` written
/// `host/path`, and without a leading `https://`, then `http://`.
pub open spec fn url_web_core(url: Seq<char>) -> Seq<char> {
    let s2 = strip_suffix_or_keep(trim(url), ".git"@);
    let s4 = strip_prefix_or_keep(scp_to_path(s2), "https://"@);
    strip_prefix_or_keep(s4, "http://"@)
}

/// A remote URL with its decorations taken off, before lower-casing: trimmed,
/// without a `.git` suffix, without a leading `https://`, `http://` or
/// `ssh://` (taken off in that order), and then `git@host:path` written
/// `host/path`; so `ssh://git@host/path` gives `host/path` too.
pub open spec fn url_core(url: Seq<char>) -> Seq<char> {
    let s2 = strip_suffix_or_keep(trim(url), ".git"@);
    let s3 = strip_prefix_or_keep(strip_prefix_or_keep(strip_prefix_or_keep(s2, "https://"@), "http://"@), "ssh://"@);
    scp_to_path(s3)
}

fn scp_to_path_exec(s: Vec<char>) -> (r: Vec<char>)
    ensures
        r@ == scp_to_path(s@),
{
    proof {
        reveal_strlit("git@");
    }
    if has_prefix(&s, &chars_of("git@")) {
        let mut rest = slice(&s, 4, s.len());
        assert(rest@ =~= s@.skip(4));
        let i = find_char(&rest, 0, ':');
        assert(rest@.skip(0) =~= rest@);
        if i < rest.len() {
            rest.set(i, '/');
        }
        rest
    } else {
        s
    }
}

/// The text of `url` trimmed and without a `.git` suffix.
fn trimmed_without_git(url: &str) -> (r: Vec<char>)
    ensures
        r@ == strip_suffix_or_keep(trim(url@), ".git"@),
{
    proof {
        reveal_strlit(".git");
    }
    let cs = chars_of(url);
    let s1 = trim_chars(&cs);
    strip_suffix_keep(&s1, &chars_of(".git"))
}

fn url_web_core_exec(url: &str) -> (r: Vec<char>)
    ensures
        r@ == url_web_core(url@),
{
    proof {
        reveal_strlit("https://");
        reveal_strlit("http://");
    }
    let s3 = scp_to_path_exec(trimmed_without_git(url));
    let s4 = strip_prefix_keep(&s3, &chars_of("https://"));
    strip_prefix_keep(&s4, &chars_of("http://"))
}

/// The older normalisation of remote URLs, which leaves `ssh://` in place:
/// the form of `url_web_core`, lower-cased.
pub fn normalise_url(url: &str) -> (r: String)
    ensures
        r@ == to_lower(url_web_core(url@)),
{
    let core = string_of(url_web_core_exec(url).as_slice());
    to_lowercase(core.as_str())
}

/// The form in which two remote URLs of one repository compare equal.
pub open spec fn spec_normalise_remote_url(url: Seq<char>) -> Seq<char> {
    to_lower(url_core(url))
}

/// Normalises a remote URL so that the scp, ssh and https spellings of one
/// repository agree: `git@github.com:Acme/Repo.git`,
/// `ssh://git@github.com/acme/repo.git` and `https://github.com/acme/repo`
/// all give `github.com/acme/repo`.
pub fn normalise_remote_url(url: &str) -> (r: String)
    ensures
        r@ == spec_normalise_remote_url(url@),
{
    proof {
        reveal_strlit("https://");
        reveal_strlit("http://");
        reveal_strlit("ssh://");
    }
    let s2 = trimmed_without_git(url);
    let s3 = strip_prefix_keep(&s2, &chars_of("https://"));
    let s4 = strip_prefix_keep(&s3, &chars_of("http://"));
    let s5 = strip_prefix_keep(&s4, &chars_of("ssh://"));
    let s6 = scp_to_path_exec(s5);
    let core = string_of(s6.as_slice());
    to_lowercase(core.as_str())
}

/// A text whose first and last characters are not whitespace is its own
/// trim.
proof fn lemma_trim_keeps(s: Seq<char>)
    requires
        s.len() > 0,
        !is_ws(s[0]),
        !is_ws(s.last()),
    ensures
        trim(s) == s,
{
    lemma_lead_ws(s, 0);
    assert(s.skip(0) =~= s);
    lemma_trail_ws(s, 0);
    assert(s.take(s.len() as int) =~= s);
}

/// A text that differs from `q` at a position of `q` does not start with it.
proof fn lemma_not_prefix_at(u: Seq<char>, q: Seq<char>, k: int)
    requires
        0 <= k < q.len(),
        k < u.len() ==> u[k] != q[k],
    ensures
        !starts_with(u, q),
{
    if starts_with(u, q) {
        assert(u.take(q.len() as int)[k] == q[k]);
    }
}

/// When `h` does not start with the first `n` characters of `q` and is at
/// least that long, `h/p` does not start with `q`.
proof fn lemma_host_blocks(h: Seq<char>, p: Seq<char>, q: Seq<char>, n: int)
    requires
        0 < n <= q.len(),
        h.len() >= n,
        !starts_with(h, q.take(n)),
    ensures
        !starts_with(h + seq!['/'] + p, q),
{
    let u = h + seq!['/'] + p;
    if starts_with(u, q) {
        assert forall|k: int| 0 <= k < n implies h.take(n)[k] == q.take(n)[k] by {
            assert(u.take(q.len() as int)[k] == q[k]);
            assert(u[k] == h[k]);
        }
        assert(h.take(n) =~= q.take(n));
    }
}

/// `h/p` starts with none of the scheme or user prefixes when `h` holds no
/// `:` and does not start with `git@` or `http`.
proof fn lemma_host_path_bare(h: Seq<char>, p: Seq<char>)
    requires
        h.len() > 0,
        forall|i: int| 0 <= i < h.len() ==> h[i] != ':',
        !starts_with(h, "git@"@),
        !starts_with(h, "http"@),
    ensures
        !starts_with(h + seq!['/'] + p, "https://"@),
        !starts_with(h + seq!['/'] + p, "http://"@),
        !starts_with(h + seq!['/'] + p, "ssh://"@),
        !starts_with(h + seq!['/'] + p, "git@"@),
{
    reveal_strlit("https://");
    reveal_strlit("http://");
    reveal_strlit("ssh://");
    reveal_strlit("git@");
    reveal_strlit("http");
    let u = h + seq!['/'] + p;
    let n = h.len() as int;
    assert(u[n] == '/');
    if n >= 4 {
        assert("https://"@.take(4) =~= "http"@);
        assert("http://"@.take(4) =~= "http"@);
        assert("git@"@.take(4) =~= "git@"@);
        lemma_host_blocks(h, p, "https://"@, 4);
        lemma_host_blocks(h, p, "http://"@, 4);
        lemma_host_blocks(h, p, "git@"@, 4);
    } else {
        lemma_not_prefix_at(u, "https://"@, n);
        lemma_not_prefix_at(u, "http://"@, n);
        lemma_not_prefix_at(u, "git@"@, n);
    }
    if n > 3 {
        assert(u[3] == h[3]);
        lemma_not_prefix_at(u, "ssh://"@, 3);
    } else {
        lemma_not_prefix_at(u, "ssh://"@, n);
    }
}

/// The hypotheses of the spelling law, on a host `h` and a path `p`.
pub open spec fn plain_host_path(h: Seq<char>, p: Seq<char>) -> bool {
    &&& h.len() > 0
    &&& p.len() > 0
    &&& forall|i: int| 0 <= i < h.len() ==> !is_ws(#[trigger] h[i]) && h[i] != ':'
    &&& forall|i: int| 0 <= i < p.len() ==> !is_ws(#[trigger] p[i]) && p[i] != ':'
    &&& !ends_with(p, ".git"@)
    &&& !starts_with(h, "git@"@)
    &&& !starts_with(h, "http"@)
}

/// `h/p` is left as it is by the prefix steps of `url_core`.
proof fn lemma_bare_core_steps(h: Seq<char>, p: Seq<char>)
    requires
        plain_host_path(h, p),
    ensures
        scp_to_path(strip_prefix_or_keep(strip_prefix_or_keep(h + seq!['/'] + p, "http://"@), "ssh://"@))
            == h + seq!['/'] + p,
{
    lemma_host_path_bare(h, p);
}

proof fn lemma_scp_form(h: Seq<char>, p: Seq<char>)
    requires
        plain_host_path(h, p),
    ensures
        url_core("git@"@ + h + seq![':'] + p + ".git"@) == h + seq!['/'] + p,
{
    reveal_strlit("https://");
    reveal_strlit("http://");
    reveal_strlit("ssh://");
    reveal_strlit("git@");
    reveal_strlit(".git");
    let u = h + seq!['/'] + p;
    let scp = "git@"@ + h + seq![':'] + p + ".git"@;
    let scp2 = "git@"@ + h + seq![':'] + p;
    lemma_trim_keeps(scp);
    assert(scp.skip(scp.len() - 4) =~= ".git"@);
    assert(scp.take(scp.len() - 4) =~= scp2);
    lemma_not_prefix_at(scp2, "https://"@, 0);
    lemma_not_prefix_at(scp2, "http://"@, 0);
    lemma_not_prefix_at(scp2, "ssh://"@, 0);
    assert(scp2.take(4) =~= "git@"@);
    let rest = h + seq![':'] + p;
    assert(scp2.skip(4) =~= rest);
    lemma_idx_of(rest, ':', h.len() as int);
    assert(rest.update(h.len() as int, '/') =~= u);
}

proof fn lemma_https_form(h: Seq<char>, p: Seq<char>)
    requires
        plain_host_path(h, p),
    ensures
        url_core("https://"@ + h + seq!['/'] + p) == h + seq!['/'] + p,
{
    reveal_strlit("https://");
    reveal_strlit(".git");
    let u = h + seq!['/'] + p;
    let web = "https://"@ + u;
    assert(web =~= "https://"@ + h + seq!['/'] + p);
    lemma_trim_keeps(web);
    assert(!ends_with(web, ".git"@)) by {
        if ends_with(web, ".git"@) {
            let t = web.skip(web.len() - 4);
            assert(t =~= ".git"@);
            if p.len() >= 4 {
                assert(p.skip(p.len() - 4) =~= t);
            } else {
                assert(t[3 - p.len()] == '/');
            }
        }
    }
    assert(strip_suffix_or_keep(trim(web), ".git"@) == web);
    assert(web.take(8) =~= "https://"@);
    assert(web.skip(8) =~= u);
    assert(strip_prefix_or_keep(web, "https://"@) == u);
    lemma_bare_core_steps(h, p);
}

proof fn lemma_http_form(h: Seq<char>, p: Seq<char>)
    requires
        plain_host_path(h, p),
    ensures
        url_core("http://"@ + h + seq!['/'] + p + ".git"@) == h + seq!['/'] + p,
{
    reveal_strlit("https://");
    reveal_strlit("http://");
    reveal_strlit(".git");
    let u = h + seq!['/'] + p;
    let plain = "http://"@ + u + ".git"@;
    let plain2 = "http://"@ + u;
    assert(plain =~= "http://"@ + h + seq!['/'] + p + ".git"@);
    lemma_trim_keeps(plain);
    assert(plain.skip(plain.len() - 4) =~= ".git"@);
    assert(plain.take(plain.len() - 4) =~= plain2);
    assert(strip_suffix_or_keep(trim(plain), ".git"@) == plain2);
    lemma_not_prefix_at(plain2, "https://"@, 4);
    assert(strip_prefix_or_keep(plain2, "https://"@) == plain2);
    assert(plain2.take(7) =~= "http://"@);
    assert(plain2.skip(7) =~= u);
    assert(strip_prefix_or_keep(plain2, "http://"@) == u);
    lemma_host_path_bare(h, p);
}

/// The scp form `git@h:p.git`, the https form `https://h/p` and the http
/// form `http://h/p.git` of one repository normalise alike, to `h/p`
/// lower-cased, for a host `h` and a path `p` without whitespace or `:`,
/// with `p` not ending in `.git` and `h` not starting with `git@` or `http`.
pub proof fn law_url_spellings_agree(h: Seq<char>, p: Seq<char>)
    requires
        plain_host_path(h, p),
    ensures
        url_core("git@"@ + h + seq![':'] + p + ".git"@) == h + seq!['/'] + p,
        url_core("https://"@ + h + seq!['/'] + p) == h + seq!['/'] + p,
        url_core("http://"@ + h + seq!['/'] + p + ".git"@) == h + seq!['/'] + p,
        spec_normalise_remote_url("git@"@ + h + seq![':'] + p + ".git"@) == to_lower(h + seq!['/'] + p),
        spec_normalise_remote_url("https://"@ + h + seq!['/'] + p) == to_lower(h + seq!['/'] + p),
        spec_normalise_remote_url("http://"@ + h + seq!['/'] + p + ".git"@) == to_lower(h + seq!['/'] + p),
{
    lemma_scp_form(h, p);
    lemma_https_form(h, p);
    lemma_http_form(h, p);
}

/// The hooks directory that `git config --get core.hooksPath` names: the output
/// trimmed, with a leading `~/` put under `home` when it is known; `None` when
/// the output is blank. Whether the directory exists is for the caller to check.
pub open spec fn spec_hooks_path(output: Seq<char>, home: Option<Seq<char>>) -> Option<Seq<char>> {
    let p = trim(output);
    if p.len() == 0 {
        None
    } else if starts_with(p, seq!['~', '/']) && home is Some {
        Some(home->0 + seq!['/'] + p.skip(2))
    } else {
        Some(p)
    }
}

pub fn hooks_path_setting(output: &str, home: Option<&str>) -> (r: Option<String>)
    ensures
        opt_view(r) == spec_hooks_path(output@, match home {
            Some(h) => Some(h@),
            None => None,
        }),
{
    let cs = chars_of(output);
    let p = trim_chars(&cs);
    if p.len() == 0 {
        return None;
    }
    let tilde = p.len() >= 2 && p[0] == '~' && p[1] == '/';
    proof {
        if p.len() >= 2 {
            assert(p@.take(2) =~= seq![p@[0], p@[1]]);
        }
    }
    match home {
        Some(h) => {
            if tilde {
                let mut out = chars_of(h);
                out.push('/');
                let mut j: usize = 2;
                while j < p.len()
                    invariant
                        2 <= j <= p.len(),
                        out@ == h@ + seq!['/'] + p@.subrange(2, j as int),
                    decreases p.len() - j,
                {
                    out.push(p[j]);
                    j = j + 1;
                    assert(out@ =~= h@ + seq!['/'] + p@.subrange(2, j as int));
                }
                assert(p@.subrange(2, j as int) =~= p@.skip(2));
                return Some(string_of(out.as_slice()));
            }
        },
        None => {},
    }
    Some(string_of(p.as_slice()))
}

/// A hook file that git would run: anything in the hooks directory but the
/// `*.sample` files git ships.
pub fn is_custom_hook(file_name: &str) -> (b: bool)
    ensures
        b == !ends_with(file_name@, ".sample"@),
{
    has_suffix(&chars_of(file_name), &chars_of(".sample")) == false
}

/// What the walk that looks for repositories does at a directory.
#[derive(PartialEq, Eq, Structural, Clone, Copy, Debug)]
pub enum WalkStep {
    /// Go on into the directory.
    Descend,
    /// Do not look inside.
    Prune,
    /// The directory is a repository: record it, do not look inside.
    Repo,
}

/// The walk of `find_git_repos` at a directory named `name` at `depth` below
/// the root: `.git` and other hidden directories below the root are not
/// entered, and a directory holding a `.git` directory is a repository.
pub open spec fn spec_repo_walk_step(name: Seq<char>, depth: nat, has_git_dir: bool) -> WalkStep {
    if name == seq!['.', 'g', 'i', 't'] {
        WalkStep::Prune
    } else if starts_with(name, seq!['.']) && depth > 0 {
        WalkStep::Prune
    } else if has_git_dir {
        WalkStep::Repo
    } else {
        WalkStep::Descend
    }
}

pub fn repo_walk_step(name: &str, depth: usize, has_git_dir: bool) -> (r: WalkStep)
    ensures
        r == spec_repo_walk_step(name@, depth as nat, has_git_dir),
{
    let cs = chars_of(name);
    let is_git = cs.len() == 4 && cs[0] == '.' && cs[1] == 'g' && cs[2] == 'i' && cs[3] == 't';
    assert(is_git == (cs@ == seq!['.', 'g', 'i', 't'])) by {
        if cs.len() == 4 {
            assert(cs@ =~= seq![cs@[0], cs@[1], cs@[2], cs@[3]]);
        }
    }
    let hidden = cs.len() >= 1 && cs[0] == '.';
    assert(hidden == starts_with(cs@, seq!['.'])) by {
        if cs.len() >= 1 {
            if cs@[0] == '.' {
                assert(cs@.take(1) =~= seq!['.']);
            } else {
                assert(cs@.take(1)[0] != seq!['.'][0]);
            }
        }
    }
    if is_git {
        WalkStep::Prune
    } else if hidden && depth > 0 {
        WalkStep::Prune
    } else if has_git_dir {
        WalkStep::Repo
    } else {
        WalkStep::Descend
    }
}

/// The temporary ref that holds the `i`th stash while a repository is
/// bundled, so that the bundle carries it.
pub open spec fn spec_stash_ref_name(i: nat) -> Seq<char> {
    "refs/ward-stash/"@ + spec_decimal(i)
}

pub fn stash_ref_name(i: u64) -> (r: String)
    ensures
        r@ == spec_stash_ref_name(i as nat),
{
    concat("refs/ward-stash/", decimal(i).as_str())
}

/// Whether the repository at `repo` declares submodules: its `.gitmodules`
/// exists (`path_exists` tells whether a path exists).
pub fn has_submodules<F: Fn(&str) -> bool>(repo: &str, path_exists: &F) -> (b: bool)
    requires
        forall|p: &str| #[trigger] call_requires(*path_exists, (p,)),
    ensures
        forall|d: spec_fn(Seq<char>) -> bool|
            #[trigger] answers_as(path_exists, d) ==> b == d(spec_join(repo@, ".gitmodules"@)),
{
    let p = join(repo, ".gitmodules");
    path_exists(p.as_str())
}

/// The number of submodules: none when the repository declares none
/// (`declared` is what `has_submodules` found), else the non-blank lines of
/// `git submodule status` when it succeeded (`status_output`), and none when
/// it did not.
pub open spec fn spec_submodule_count(declared: bool, status_output: Option<Seq<char>>) -> nat {
    if !declared {
        0
    } else {
        match status_output {
            Some(o) => lines(o).filter(|l: Seq<char>| !is_blank(l)).len(),
            None => 0,
        }
    }
}

pub fn submodule_count(declared: bool, status_output: Option<&str>) -> (n: u64)
    ensures
        n == spec_submodule_count(declared, opt_str_view(status_output)),
        !declared ==> n == 0,
{
    if !declared {
        return 0;
    }
    match status_output {
        Some(o) => count_nonblank_lines(o),
        None => 0,
    }
}

/// Whether the repository at `repo` has per-worktree configuration: its
/// `.git/config.worktree` exists.
pub fn has_worktree_config<F: Fn(&str) -> bool>(repo: &str, path_exists: &F) -> (b: bool)
    requires
        forall|p: &str| #[trigger] call_requires(*path_exists, (p,)),
    ensures
        forall|d: spec_fn(Seq<char>) -> bool|
            #[trigger] answers_as(path_exists, d) ==> b == d(spec_join(repo@, ".git/config.worktree"@)),
{
    let p = join(repo, ".git/config.worktree");
    path_exists(p.as_str())
}

} // verus!
