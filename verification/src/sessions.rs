//! Agent sessions: a session directory is named by a slug of the repository
//! path (`/home/me/bet-trackers` becomes `-home-me-bet-trackers`). Since `-`
//! may also stand inside a directory name, the slug is resolved against the
//! file system, preferring the longest segment that names a directory.
use vstd::prelude::*;
use crate::git::opt_view;
use crate::paths::{answers_as, join, spec_join};
use crate::text::{chars_of, split_at_char, split_char, string_of, string_views, views};

verus! {

/// How long after its last write a session still counts as active.
pub const DEFAULT_ACTIVE_THRESHOLD_SECS: u64 = 900;

/// Parts joined with `-`, as `[&str]::join("-")` does.
pub open spec fn dash_join(parts: Seq<Seq<char>>) -> Seq<char>
    decreases parts.len(),
{
    if parts.len() == 0 {
        seq![]
    } else if parts.len() == 1 {
        parts[0]
    } else {
        dash_join(parts.drop_last()) + seq!['-'] + parts.last()
    }
}

/// The path that `probe` finds under `base` for the remaining parts, with
/// `d` telling which paths are directories: no parts left gives `base`;
/// otherwise the first `take` parts, longest first, joined with `-` name the
/// next directory, and the search goes on below it.
pub open spec fn spec_probe(d: spec_fn(Seq<char>) -> bool, base: Seq<char>, rest: Seq<Seq<char>>) -> Option<
    Seq<char>,
>
    decreases rest.len(), rest.len() + 1,
{
    if rest.len() == 0 {
        Some(base)
    } else {
        probe_from(d, base, rest, rest.len() as int)
    }
}

/// The search under `base` trying the first `take` parts, then fewer.
pub open spec fn probe_from(
    d: spec_fn(Seq<char>) -> bool,
    base: Seq<char>,
    rest: Seq<Seq<char>>,
    take: int,
) -> Option<Seq<char>>
    decreases rest.len(), take,
{
    if take < 1 || take > rest.len() {
        None
    } else {
        let cand = spec_join(base, dash_join(rest.take(take)));
        if d(cand) {
            match spec_probe(d, cand, rest.skip(take)) {
                Some(p) => Some(p),
                None => probe_from(d, base, rest, take - 1),
            }
        } else {
            probe_from(d, base, rest, take - 1)
        }
    }
}

/// The path made from `base` by grouping the parts as `sizes` says (each
/// group of consecutive parts joined with `-` is one more path component),
/// when the sizes use up the parts exactly.
pub open spec fn compose(base: Seq<char>, rest: Seq<Seq<char>>, sizes: Seq<nat>) -> Option<Seq<char>>
    decreases sizes.len(),
{
    if sizes.len() == 0 {
        if rest.len() == 0 {
            Some(base)
        } else {
            None
        }
    } else if 1 <= sizes[0] <= rest.len() {
        compose(
            spec_join(base, dash_join(rest.take(sizes[0] as int))),
            rest.skip(sizes[0] as int),
            sizes.skip(1),
        )
    } else {
        None
    }
}

/// `p` is `base` followed by the parts, grouped in some way.
pub open spec fn is_composition(base: Seq<char>, rest: Seq<Seq<char>>, p: Seq<char>) -> bool {
    exists|sizes: Seq<nat>| #[trigger] compose(base, rest, sizes) == Some(p)
}

/// The parts of a slug: what follows its leading `-`, split at every `-`.
pub open spec fn slug_parts(slug: Seq<char>) -> Option<Seq<Seq<char>>> {
    if slug.len() > 0 && slug[0] == '-' {
        Some(split_char(slug.skip(1), '-'))
    } else {
        None
    }
}

/// The repository a slug stands for, with `d` telling which paths are
/// directories: the probe from `/`, or `None` for a slug without a leading `-`.
pub open spec fn spec_resolve_slug(d: spec_fn(Seq<char>) -> bool, slug: Seq<char>) -> Option<Seq<char>> {
    match slug_parts(slug) {
        Some(parts) => spec_probe(d, seq!['/'], parts),
        None => None,
    }
}

/// `parts[a..b]` joined with `-`.
fn join_dash(parts: &Vec<Vec<char>>, a: usize, b: usize) -> (r: String)
    requires
        a < b <= parts.len(),
    ensures
        r@ == dash_join(views(parts@).subrange(a as int, b as int)),
{
    let ghost pv = views(parts@);
    let mut out: Vec<char> = parts[a].clone();
    assert(pv.subrange(a as int, a + 1) =~= seq![pv[a as int]]);
    let mut i: usize = a + 1;
    while i < b
        invariant
            a < i <= b <= parts.len(),
            pv == views(parts@),
            out@ == dash_join(pv.subrange(a as int, i as int)),
        decreases b - i,
    {
        let ghost before = out@;
        out.push('-');
        let mut j: usize = 0;
        while j < parts[i].len()
            invariant
                i < parts.len(),
                j <= parts@[i as int].len(),
                out@ == before + seq!['-'] + parts@[i as int]@.take(j as int),
            decreases parts@[i as int].len() - j,
        {
            out.push(parts[i][j]);
            j = j + 1;
            assert(out@ =~= before + seq!['-'] + parts@[i as int]@.take(j as int));
        }
        assert(parts@[i as int]@.take(j as int) =~= pv[i as int]);
        let ghost s = pv.subrange(a as int, i + 1);
        assert(s.drop_last() =~= pv.subrange(a as int, i as int));
        assert(s.last() == pv[i as int]);
        i = i + 1;
    }
    string_of(out.as_slice())
}

/// Searches below `base` for the parts from `start` on.
fn probe_at<F: Fn(&str) -> bool>(base: String, parts: &Vec<Vec<char>>, start: usize, is_dir: &F) -> (r:
    Option<String>)
    requires
        start <= parts.len(),
        forall|p: &str| #[trigger] call_requires(*is_dir, (p,)),
    ensures
        forall|d: spec_fn(Seq<char>) -> bool|
            #[trigger] answers_as(is_dir, d) ==> opt_view(r) == spec_probe(
                d,
                base@,
                views(parts@).skip(start as int),
            ),
        r matches Some(p) ==> is_composition(base@, views(parts@).skip(start as int), p@),
    decreases parts.len() - start,
{
    let ghost rest = views(parts@).skip(start as int);
    if start == parts.len() {
        assert(rest.len() == 0);
        assert(compose(base@, rest, Seq::<nat>::empty()) == Some(base@));
        return Some(base);
    }
    let n: usize = parts.len() - start;
    let mut take: usize = n;
    while take >= 1
        invariant
            take <= n,
            n == parts.len() - start,
            start < parts.len(),
            rest == views(parts@).skip(start as int),
            forall|p: &str| #[trigger] call_requires(*is_dir, (p,)),
            forall|d: spec_fn(Seq<char>) -> bool|
                #[trigger] answers_as(is_dir, d) ==> spec_probe(d, base@, rest) == probe_from(
                    d,
                    base@,
                    rest,
                    take as int,
                ),
        decreases take,
    {
        let seg = join_dash(parts, start, start + take);
        assert(views(parts@).subrange(start as int, start + take) =~= rest.take(take as int));
        let cand = join(base.as_str(), seg.as_str());
        let found = is_dir(cand.as_str());
        assert(rest.skip(take as int) =~= views(parts@).skip(start + take));
        if found {
            let sub = probe_at(cand, parts, start + take, is_dir);
            if sub.is_some() {
                proof {
                    let p = sub->0;
                    let sizes0 = choose|sizes: Seq<nat>| #[trigger]
                        compose(cand@, rest.skip(take as int), sizes) == Some(p@);
                    let sizes = seq![take as nat] + sizes0;
                    assert(sizes.skip(1) =~= sizes0);
                    assert(compose(base@, rest, sizes) == Some(p@));
                }
                return sub;
            }
        }
        proof {
            assert forall|d: spec_fn(Seq<char>) -> bool| #[trigger] answers_as(is_dir, d) implies spec_probe(
                d,
                base@,
                rest,
            ) == probe_from(d, base@, rest, take - 1) by {
                assert(found == d(cand@));
            }
        }
        take = take - 1;
    }
    None
}

/// The directory that the parts name below `base`: each next component is
/// the longest run of parts, joined with `-`, for which `is_dir` holds and
/// below which the rest can be found; `None` when no grouping works.
pub fn probe<F: Fn(&str) -> bool>(base: &str, parts: &Vec<String>, is_dir: &F) -> (r: Option<String>)
    requires
        forall|p: &str| #[trigger] call_requires(*is_dir, (p,)),
    ensures
        forall|d: spec_fn(Seq<char>) -> bool|
            #[trigger] answers_as(is_dir, d) ==> opt_view(r) == spec_probe(
                d,
                base@,
                string_views(parts@),
            ),
        r matches Some(p) ==> is_composition(base@, string_views(parts@), p@),
{
    let mut cs: Vec<Vec<char>> = Vec::new();
    let mut k: usize = 0;
    while k < parts.len()
        invariant
            k <= parts.len(),
            views(cs@) == string_views(parts@).take(k as int),
        decreases parts.len() - k,
    {
        let c = chars_of(parts[k].as_str());
        assert(views(cs@.push(c)) =~= views(cs@).push(c@));
        cs.push(c);
        k = k + 1;
        assert(string_views(parts@).take(k as int) =~= string_views(parts@).take(k - 1).push(
            parts@[k - 1]@,
        ));
    }
    assert(string_views(parts@).take(k as int) =~= string_views(parts@));
    assert(views(cs@).skip(0) =~= views(cs@));
    let b = string_of(chars_of(base).as_slice());
    probe_at(b, &cs, 0, is_dir)
}

/// The repository that a session slug stands for: the slug without its
/// leading `-`, split at every `-`, probed from `/`. `None` when the slug has
/// no leading `-` or no grouping of its parts names a directory.
pub fn resolve_slug<F: Fn(&str) -> bool>(slug: &str, is_dir: &F) -> (r: Option<String>)
    requires
        forall|p: &str| #[trigger] call_requires(*is_dir, (p,)),
    ensures
        forall|d: spec_fn(Seq<char>) -> bool|
            #[trigger] answers_as(is_dir, d) ==> opt_view(r) == spec_resolve_slug(d, slug@),
        slug_parts(slug@) is None ==> r is None,
        r matches Some(p) ==> is_composition(seq!['/'], slug_parts(slug@)->0, p@),
{
    let s = chars_of(slug);
    if s.len() == 0 || s[0] != '-' {
        return None;
    }
    let mut tail: Vec<char> = Vec::new();
    let mut i: usize = 1;
    while i < s.len()
        invariant
            1 <= i <= s.len(),
            tail@ == s@.subrange(1, i as int),
        decreases s.len() - i,
    {
        tail.push(s[i]);
        i = i + 1;
        assert(tail@ =~= s@.subrange(1, i as int));
    }
    assert(tail@ =~= slug@.skip(1));
    let pieces = split_at_char(&tail, '-');
    let root = string_of(chars_of("/").as_slice());
    proof {
        reveal_strlit("/");
        assert(root@ =~= seq!['/']);
        assert(views(pieces@).skip(0) =~= views(pieces@));
    }
    probe_at(root, &pieces, 0, is_dir)
}

/// A session is active when its latest write (seconds since the epoch) is no
/// older than `threshold` before `now`; with no known write, or a threshold
/// reaching before the epoch, it is not.
pub fn is_active_session(latest: Option<u64>, now: u64, threshold: u64) -> (b: bool)
    ensures
        b == (match latest {
            Some(m) => threshold <= now && m >= now - threshold,
            None => false,
        }),
{
    match latest {
        Some(m) => threshold <= now && m >= now - threshold,
        None => false,
    }
}

/// When all the remaining parts joined with `-` name a directory, that
/// directory is the answer: the longest segment is preferred.
pub proof fn law_probe_prefers_longest(d: spec_fn(Seq<char>) -> bool, base: Seq<char>, rest: Seq<Seq<char>>)
    requires
        rest.len() > 0,
        d(spec_join(base, dash_join(rest))),
    ensures
        spec_probe(d, base, rest) == Some(spec_join(base, dash_join(rest))),
{
    assert(rest.take(rest.len() as int) =~= rest);
    assert(rest.skip(rest.len() as int) =~= Seq::<Seq<char>>::empty());
    let cand = spec_join(base, dash_join(rest));
    assert(spec_probe(d, cand, rest.skip(rest.len() as int)) == Some(cand));
}

/// A slug without a leading `-` names no repository.
pub proof fn law_slug_needs_leading_dash(d: spec_fn(Seq<char>) -> bool, slug: Seq<char>)
    requires
        !(slug.len() > 0 && slug[0] == '-'),
    ensures
        spec_resolve_slug(d, slug) is None,
{
}

} // verus!
