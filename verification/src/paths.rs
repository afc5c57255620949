//! File-system paths as text, with the two operations of `std::path` that ward
//! relies on: `Path::join` and the component-wise `Path::starts_with`.
use vstd::prelude::*;
use crate::text::{chars_eq, chars_of, split_at_char, split_char, string_of, views};

verus! {

/// `Path::join`: an absolute `rel` replaces `base`; otherwise `rel` is appended
/// after a `/` (none is added when `base` is empty or already ends with one).
pub open spec fn spec_join(base: Seq<char>, rel: Seq<char>) -> Seq<char> {
    if rel.len() > 0 && rel[0] == '/' {
        rel
    } else if base.len() == 0 || base.last() == '/' {
        base + rel
    } else {
        base + seq!['/'] + rel
    }
}

pub fn join(base: &str, rel: &str) -> (r: String)
    ensures
        r@ == spec_join(base@, rel@),
{
    let b = chars_of(base);
    let r = chars_of(rel);
    if r.len() > 0 && r[0] == '/' {
        return string_of(r.as_slice());
    }
    let mut out = b.clone();
    if !(b.len() == 0 || b[b.len() - 1] == '/') {
        out.push('/');
    }
    let mut j: usize = 0;
    let ghost start = out@;
    while j < r.len()
        invariant
            j <= r.len(),
            out@ == start + r@.take(j as int),
        decreases r.len() - j,
    {
        out.push(r[j]);
        j = j + 1;
        assert(out@ =~= start + r@.take(j as int));
    }
    assert(r@.take(j as int) =~= r@);
    string_of(out.as_slice())
}

/// The file-system test `f` answers as `d` does: whatever `f` returns for a
/// path is `d` of that path.
pub open spec fn answers_as<F: Fn(&str) -> bool>(f: F, d: spec_fn(Seq<char>) -> bool) -> bool {
    forall|p: &str, b: bool| #[trigger] call_ensures(f, (p,), b) ==> b == d(p@)
}

/// The file-system lookup `f` answers as `d` does: whatever `f` returns for
/// a path is `d` of that path.
pub open spec fn resolves_as<F: Fn(&str) -> Option<String>>(
    f: F,
    d: spec_fn(Seq<char>) -> Option<Seq<char>>,
) -> bool {
    forall|p: &str, o: Option<String>|
        #[trigger] call_ensures(f, (p,), o) ==> d(p@) == match o {
            Some(s) => Some(s@),
            None => None,
        }
}

/// The path segments that are components: empty ones (from `//`) and `.`
/// are dropped, as `Path::components` normalises them.
pub open spec fn normal_segments(segs: Seq<Seq<char>>) -> Seq<Seq<char>> {
    segs.filter(|g: Seq<char>| g.len() > 0 && g != seq!['.'])
}

/// `Path::components`: whether the path has a root, then its other components;
/// a leading `.` of a relative path is kept as a component of its own.
pub open spec fn components(p: Seq<char>) -> (bool, Seq<Seq<char>>) {
    let segs = split_char(p, '/');
    if p.len() > 0 && p[0] == '/' {
        (true, normal_segments(segs))
    } else if segs[0] == seq!['.'] {
        (false, seq![seq!['.']] + normal_segments(segs.drop_first()))
    } else {
        (false, normal_segments(segs))
    }
}

/// `Path::starts_with`: `base`'s components are the first components of `p`.
pub open spec fn spec_path_starts_with(p: Seq<char>, base: Seq<char>) -> bool {
    let (pr, pc) = components(p);
    let (br, bc) = components(base);
    pr == br && bc.len() <= pc.len() && pc.take(bc.len() as int) == bc
}

/// The normal segments of `segs[from..]`.
fn normal_from(segs: &Vec<Vec<char>>, from: usize) -> (r: Vec<Vec<char>>)
    requires
        from <= segs.len(),
    ensures
        views(r@) == normal_segments(views(segs@).skip(from as int)),
{
    let ghost pred = |g: Seq<char>| g.len() > 0 && g != seq!['.'];
    let ghost src = views(segs@).skip(from as int);
    let mut r: Vec<Vec<char>> = Vec::new();
    let mut k = from;
    while k < segs.len()
        invariant
            from <= k <= segs.len(),
            src == views(segs@).skip(from as int),
            pred == (|g: Seq<char>| g.len() > 0 && g != seq!['.']),
            views(r@) == src.take(k - from).filter(pred),
        decreases segs.len() - k,
    {
        proof {
            let x = src[k - from];
            assert(src.take(k - from + 1) =~= src.take(k - from).push(x));
            src.take(k - from).lemma_filter_push(x, pred);
            assert(x == segs@[k as int]@);
        }
        let g = &segs[k];
        let is_dot = g.len() == 1 && g[0] == '.';
        assert(is_dot == (g@ == seq!['.'])) by {
            if g.len() == 1 {
                assert(g@ =~= seq![g@[0]]);
            }
        }
        if g.len() > 0 && !is_dot {
            let gc = g.clone();
            assert(views(r@.push(gc)) =~= views(r@).push(g@));
            r.push(gc);
        }
        k = k + 1;
    }
    assert(src.take(k - from) =~= src);
    r
}

fn components_exec(p: &Vec<char>) -> (r: (bool, Vec<Vec<char>>))
    ensures
        r.0 == components(p@).0,
        views(r.1@) == components(p@).1,
{
    let segs = split_at_char(p, '/');
    assert(views(segs@).skip(0) =~= views(segs@));
    if p.len() > 0 && p[0] == '/' {
        (true, normal_from(&segs, 0))
    } else {
        let first_dot = segs[0].len() == 1 && segs[0][0] == '.';
        assert(views(segs@)[0] == segs@[0]@);
        assert(first_dot == (segs@[0]@ == seq!['.'])) by {
            if segs[0].len() == 1 {
                assert(segs@[0]@ =~= seq![segs@[0]@[0]]);
            }
        }
        if first_dot {
            let mut r: Vec<Vec<char>> = Vec::new();
            r.push(segs[0].clone());
            let rest = normal_from(&segs, 1);
            let mut k: usize = 0;
            while k < rest.len()
                invariant
                    k <= rest.len(),
                    views(r@) == seq![seq!['.']] + views(rest@).take(k as int),
                decreases rest.len() - k,
            {
                let x = rest[k].clone();
                assert(views(r@.push(x)) =~= views(r@).push(rest@[k as int]@));
                r.push(x);
                k = k + 1;
                assert(views(r@) =~= seq![seq!['.']] + views(rest@).take(k as int));
            }
            assert(views(rest@).take(k as int) =~= views(rest@));
            assert(views(segs@).skip(1) =~= views(segs@).drop_first());
            (false, r)
        } else {
            (false, normal_from(&segs, 0))
        }
    }
}

/// Whether `p` lies at or under `base`, comparing whole components as
/// `Path::starts_with` does (so `/a/bc` is not under `/a/b`).
pub fn path_starts_with(p: &str, base: &str) -> (b: bool)
    ensures
        b == spec_path_starts_with(p@, base@),
{
    let (pr, pc) = components_exec(&chars_of(p));
    let (br, bc) = components_exec(&chars_of(base));
    assert(views(bc@).len() == bc.len() && views(pc@).len() == pc.len());
    if pr != br || bc.len() > pc.len() {
        return false;
    }
    let mut k: usize = 0;
    while k < bc.len()
        invariant
            bc.len() <= pc.len(),
            k <= bc.len(),
            views(pc@) == components(p@).1,
            views(bc@) == components(base@).1,
            pr == components(p@).0,
            br == components(base@).0,
            pr == br,
            forall|i: int| 0 <= i < k ==> views(pc@)[i] == views(bc@)[i],
        decreases bc.len() - k,
    {
        assert(views(pc@)[k as int] == pc@[k as int]@ && views(bc@)[k as int] == bc@[k as int]@);
        if !chars_eq(&pc[k], &bc[k]) {
            assert(views(pc@).take(bc.len() as int)[k as int] != views(bc@)[k as int]);
            return false;
        }
        k = k + 1;
    }
    assert(views(pc@).take(bc.len() as int) =~= views(bc@));
    true
}

/// `Path::file_name`: the last component when it is a normal one (not `..`,
/// not a lone `.`, not the root).
pub open spec fn spec_file_name(p: Seq<char>) -> Option<Seq<char>> {
    let c = components(p).1;
    if c.len() > 0 && c.last() != seq!['.', '.'] && c.last() != seq!['.'] {
        Some(c.last())
    } else {
        None
    }
}

pub fn file_name(p: &str) -> (r: Option<String>)
    ensures
        match r {
            Some(s) => spec_file_name(p@) == Some(s@),
            None => spec_file_name(p@) is None,
        },
{
    let (_, c) = components_exec(&chars_of(p));
    assert(views(c@).len() == c.len());
    if c.len() == 0 {
        return None;
    }
    let last = &c[c.len() - 1];
    assert(views(c@).last() == last@);
    let dotdot = last.len() == 2 && last[0] == '.' && last[1] == '.';
    let dot = last.len() == 1 && last[0] == '.';
    assert(dotdot == (last@ == seq!['.', '.'])) by {
        if last.len() == 2 {
            assert(last@ =~= seq![last@[0], last@[1]]);
        }
    }
    assert(dot == (last@ == seq!['.'])) by {
        if last.len() == 1 {
            assert(last@ =~= seq![last@[0]]);
        }
    }
    if dotdot || dot {
        None
    } else {
        Some(string_of(last.as_slice()))
    }
}

} // verus!
