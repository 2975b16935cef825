//! Unix path text: what `Path::file_name`, `Path::extension` and
//! `PathBuf::join` compute on paths held as strings.
use vstd::prelude::*;
use crate::text;
use crate::text::{split_char, views};

verus! {

pub open spec fn is_dot(c: Seq<char>) -> bool {
    c == seq!['.']
}

pub open spec fn is_dotdot(c: Seq<char>) -> bool {
    c == seq!['.', '.']
}

/// The pieces of a path between `/`, without empty pieces and `.`, as
/// `Path::components` keeps them (a leading `.` stays).
pub open spec fn kept_components(p: Seq<char>) -> Seq<Seq<char>> {
    split_char(p, '/').filter(|c: Seq<char>| c.len() > 0 && !is_dot(c))
}

/// `Path::file_name`: the last normal component, if the path ends in one.
pub open spec fn file_name(p: Seq<char>) -> Option<Seq<char>> {
    let cs = kept_components(p);
    if cs.len() == 0 || is_dotdot(cs.last()) {
        None
    } else {
        Some(cs.last())
    }
}

/// The position of the last `.` in `s`, if any.
pub open spec fn last_dot(s: Seq<char>) -> Option<int>
    decreases s.len(),
{
    if s.len() == 0 {
        None
    } else if s.last() == '.' {
        Some(s.len() - 1)
    } else {
        last_dot(s.drop_last())
    }
}

/// `Path::extension`: the text after the last `.` of the file name, unless
/// that `.` begins the name.
pub open spec fn extension(p: Seq<char>) -> Option<Seq<char>> {
    match file_name(p) {
        Some(f) => if is_dotdot(f) {
            None
        } else {
            match last_dot(f) {
                Some(i) => if i > 0 {
                    Some(f.skip(i + 1))
                } else {
                    None
                },
                None => None,
            }
        },
        None => None,
    }
}

/// `Path::file_stem`: the file name before its extension.
pub open spec fn file_stem(p: Seq<char>) -> Option<Seq<char>> {
    match file_name(p) {
        Some(f) => match last_dot(f) {
            Some(i) => if i > 0 {
                Some(f.take(i))
            } else {
                Some(f)
            },
            None => Some(f),
        },
        None => None,
    }
}

/// `PathBuf::join` on Unix: an absolute `rel` replaces the base; otherwise a
/// `/` separates them where the base does not already end with one.
pub open spec fn join(base: Seq<char>, rel: Seq<char>) -> Seq<char> {
    if rel.len() > 0 && rel[0] == '/' {
        rel
    } else if base.len() == 0 || base.last() == '/' {
        base + rel
    } else {
        base + seq!['/'] + rel
    }
}

// ── Executable ───────────────────────────────────────────────────────────────

pub fn join_exec(base: &str, rel: &str) -> (r: String)
    ensures
        r@ == join(base@, rel@),
{
    let b = text::chars_of(base);
    let r = text::chars_of(rel);
    let mut out = text::slice_of(&b, 0, b.len());
    if r.len() > 0 && r[0] == '/' {
        return text::string_of(&r);
    }
    if !(b.len() == 0 || b[b.len() - 1] == '/') {
        out.push('/');
    }
    text::push_all(&mut out, &r);
    assert(out@ =~= join(base@, rel@));
    text::string_of(&out)
}

pub fn kept_components_exec(p: &[char]) -> (r: Vec<Vec<char>>)
    ensures
        views(r@) == kept_components(p@),
{
    let parts = text::split_char_exec(p, '/');
    let ghost pv = split_char(p@, '/');
    let mut out: Vec<Vec<char>> = Vec::new();
    let mut i: usize = 0;
    while i < parts.len()
        invariant
            views(parts@) == pv,
            pv == split_char(p@, '/'),
            i <= parts.len(),
            views(out@) == pv.take(i as int).filter(|c: Seq<char>| c.len() > 0 && !is_dot(c)),
        decreases parts.len() - i,
    {
        let c = &parts[i];
        assert(c@ == pv[i as int]);
        let ghost before = views(out@);
        assert(pv.take(i + 1).drop_last() =~= pv.take(i as int));
        if c.len() > 0 && !(c.len() == 1 && c[0] == '.') {
            out.push(text::slice_of(c, 0, c.len()));
            assert(c@.subrange(0, c.len() as int) =~= c@);
            assert(views(out@) =~= before.push(c@));
        } else {
            assert(c@.len() == 0 || is_dot(c@)) by {
                if c@.len() == 1 {
                    assert(c@ =~= seq![c@[0]]);
                }
            }
        }
        assert(views(out@) =~= pv.take(i + 1).filter(|c: Seq<char>| c.len() > 0 && !is_dot(c)))
            by {
            reveal(Seq::filter);
        }
        i = i + 1;
    }
    assert(pv.take(parts.len() as int) =~= pv);
    out
}

/// `Path::file_name` of a path held as a string.
pub fn file_name_exec(p: &str) -> (r: Option<String>)
    ensures
        r matches Some(f) ==> file_name(p@) == Some(f@),
        r is None ==> file_name(p@) is None,
{
    let pv = text::chars_of(p);
    let cs = kept_components_exec(&pv);
    if cs.len() == 0 {
        return None;
    }
    let last = &cs[cs.len() - 1];
    assert(last@ == kept_components(p@).last());
    if last.len() == 2 && last[0] == '.' && last[1] == '.' {
        assert(last@ =~= seq!['.', '.']);
        return None;
    }
    assert(!is_dotdot(last@)) by {
        if last@.len() == 2 {
            assert(!(last@[0] == '.' && last@[1] == '.'));
        }
    }
    Some(text::string_of(last))
}

pub fn last_dot_exec(s: &[char]) -> (r: Option<usize>)
    ensures
        r matches Some(i) ==> last_dot(s@) == Some(i as int) && i < s.len(),
        r is None ==> last_dot(s@) is None,
{
    let mut i: usize = s.len();
    assert(s@.take(i as int) =~= s@);
    while i > 0
        invariant
            i <= s.len(),
            last_dot(s@) == last_dot(s@.take(i as int)),
        decreases i,
    {
        assert(s@.take(i as int).last() == s@[i - 1]);
        if s[i - 1] == '.' {
            return Some(i - 1);
        }
        assert(s@.take(i as int).drop_last() =~= s@.take(i - 1));
        i = i - 1;
    }
    assert(s@.take(0) =~= Seq::<char>::empty());
    None
}

/// `Path::extension` of a path held as a string.
pub fn extension_exec(p: &str) -> (r: Option<String>)
    ensures
        r matches Some(e) ==> extension(p@) == Some(e@),
        r is None ==> extension(p@) is None,
{
    let f = file_name_exec(p)?;
    let fv = text::chars_of(f.as_str());
    if fv.len() == 2 && fv[0] == '.' && fv[1] == '.' {
        assert(fv@ =~= seq!['.', '.']);
        return None;
    }
    assert(!is_dotdot(fv@)) by {
        if fv@.len() == 2 {
            assert(!(fv@[0] == '.' && fv@[1] == '.'));
        }
    }
    match last_dot_exec(&fv) {
        Some(i) => {
            if i > 0 {
                let e = text::slice_of(&fv, i + 1, fv.len());
                assert(e@ =~= fv@.skip(i + 1));
                Some(text::string_of(&e))
            } else {
                None
            }
        },
        None => None,
    }
}

/// `Path::file_stem` of a path held as a string.
pub fn file_stem_exec(p: &str) -> (r: Option<String>)
    ensures
        r matches Some(e) ==> file_stem(p@) == Some(e@),
        r is None ==> file_stem(p@) is None,
{
    let f = file_name_exec(p)?;
    let fv = text::chars_of(f.as_str());
    match last_dot_exec(&fv) {
        Some(i) => {
            if i > 0 {
                let e = text::slice_of(&fv, 0, i);
                assert(e@ =~= fv@.take(i as int));
                Some(text::string_of(&e))
            } else {
                Some(f)
            }
        },
        None => Some(f),
    }
}


/// The component that `Path::components` yields before the named ones: the
/// root for an absolute path, `.` for a path that starts with it.
pub open spec fn lead_component(p: Seq<char>) -> Seq<Seq<char>> {
    if p.len() > 0 && p[0] == '/' {
        seq![seq!['/']]
    } else if p == seq!['.'] || text::starts_with(p, seq!['.', '/']) {
        seq![seq!['.']]
    } else {
        Seq::empty()
    }
}

/// `Path::components`, each as its text (the root as `/`).
pub open spec fn components(p: Seq<char>) -> Seq<Seq<char>> {
    lead_component(p) + kept_components(p)
}

/// `Path::starts_with`: the components of `base` begin those of `p`.
pub open spec fn path_starts_with(p: Seq<char>, base: Seq<char>) -> bool {
    components(base).len() <= components(p).len() && components(p).take(
        components(base).len() as int,
    ) == components(base)
}

pub fn components_exec(p: &[char]) -> (r: Vec<Vec<char>>)
    ensures
        views(r@) == components(p@),
{
    let mut out: Vec<Vec<char>> = Vec::new();
    let abs = p.len() > 0 && p[0] == '/';
    let dot = !abs && ((p.len() == 1 && p[0] == '.') || (p.len() >= 2 && p[0] == '.' && p[1]
        == '/'));
    proof {
        if p@.len() == 1 && p@[0] == '.' {
            assert(p@ =~= seq!['.']);
        }
        if p@.len() >= 2 && p@[0] == '.' && p@[1] == '/' {
            assert(p@.subrange(0, 2) =~= seq!['.', '/']);
        }
        if p@ == seq!['.'] {
            assert(p@.len() == 1);
        }
        if text::starts_with(p@, seq!['.', '/']) {
            assert(p@.subrange(0, 2)[0] == p@[0]);
            assert(p@.subrange(0, 2)[1] == p@[1]);
        }
    }
    if abs {
        let v: Vec<char> = vec!['/'];
        assert(v@ =~= seq!['/']);
        out.push(v);
    } else if dot {
        let v: Vec<char> = vec!['.'];
        assert(v@ =~= seq!['.']);
        out.push(v);
    }
    assert(views(out@) =~= lead_component(p@));
    let ghost lead = views(out@);
    let kept = kept_components_exec(p);
    let mut i: usize = 0;
    while i < kept.len()
        invariant
            i <= kept.len(),
            views(kept@) == kept_components(p@),
            views(out@) == lead + views(kept@).take(i as int),
        decreases kept.len() - i,
    {
        let ghost before = out@;
        let piece = text::slice_of(&kept[i], 0, kept[i].len());
        assert(piece@ =~= kept@[i as int]@);
        out.push(piece);
        assert(out@ == before.push(piece));
        assert(views(out@) =~= views(before).push(piece@));
        assert(views(kept@).take(i + 1) =~= views(kept@).take(i as int).push(kept@[i as int]@));
        assert(views(out@) =~= lead + views(kept@).take(i + 1));
        i = i + 1;
    }
    assert(views(kept@).take(kept.len() as int) =~= views(kept@));
    out
}

/// `Path::starts_with` of two paths held as strings.
pub fn path_starts_with_exec(p: &str, base: &str) -> (r: bool)
    ensures
        r == path_starts_with(p@, base@),
{
    let pc = components_exec(&text::chars_of(p));
    let bc = components_exec(&text::chars_of(base));
    if bc.len() > pc.len() {
        return false;
    }
    let mut i: usize = 0;
    while i < bc.len()
        invariant
            i <= bc.len() <= pc.len(),
            views(pc@) == components(p@),
            views(bc@) == components(base@),
            forall|j: int| 0 <= j < i ==> #[trigger] views(pc@)[j] == views(bc@)[j],
        decreases bc.len() - i,
    {
        if !text::seq_eq(&pc[i], &bc[i]) {
            assert(views(pc@).take(bc.len() as int)[i as int] != views(bc@)[i as int]);
            return false;
        }
        i = i + 1;
    }
    assert(views(pc@).take(bc.len() as int) =~= views(bc@));
    true
}


/// The components after the leading one are the named pieces: never empty,
/// never `.`, and without `/`.
pub proof fn lemma_components_pieces(p: Seq<char>)
    ensures
        forall|i: int|
            lead_component(p).len() <= i < components(p).len() ==> (#[trigger] components(p)[i]).len()
                > 0 && !is_dot(components(p)[i]) && text::free_of(components(p)[i], '/'),
{
    let parts = split_char(p, '/');
    let f = |c: Seq<char>| c.len() > 0 && !is_dot(c);
    text::lemma_split_pieces_free(p, '/');
    #[allow(deprecated)]
    parts.filter_lemma(f);
    let k = kept_components(p);
    let lead = lead_component(p);
    assert forall|i: int| lead.len() <= i < components(p).len() implies (#[trigger] components(p)[i]).len()
        > 0 && !is_dot(components(p)[i]) && text::free_of(components(p)[i], '/') by {
        let c = components(p)[i];
        assert(c == k[i - lead.len()]);
        assert(f(k[i - lead.len()]));
        lemma_filter_keeps_free(parts, f);
        assert forall|x: int| 0 <= x < c.len() implies #[trigger] c[x] != '/' by {
            assert(k[i - lead.len()][x] != '/');
        }
    }
}

/// Filtering keeps pieces without `/` free of it.
proof fn lemma_filter_keeps_free(s: Seq<Seq<char>>, f: spec_fn(Seq<char>) -> bool)
    requires
        text::none_hold(s, '/'),
    ensures
        text::none_hold(s.filter(f), '/'),
    decreases s.len(),
{
    reveal(Seq::filter);
    if s.len() > 0 {
        let d = s.drop_last();
        assert(text::none_hold(d, '/')) by {
            assert forall|i: int, j: int| 0 <= i < d.len() && 0 <= j < d[i].len() implies #[trigger] d[i][j]
                != '/' by {
                assert(d[i] == s[i]);
            }
        }
        lemma_filter_keeps_free(d, f);
        let out = s.filter(f);
        let df = d.filter(f);
        assert forall|i: int, j: int| 0 <= i < out.len() && 0 <= j < out[i].len() implies #[trigger] out[i][j]
            != '/' by {
            if i < df.len() {
                assert(out[i] == df[i]);
            } else {
                assert(out[i] == s.last());
                assert(s[s.len() - 1][j] != '/');
            }
        }
    }
}

/// A named piece is its own file name.
pub proof fn lemma_single_component(c: Seq<char>)
    requires
        c.len() > 0,
        text::free_of(c, '/'),
        !is_dot(c),
        !is_dotdot(c),
    ensures
        kept_components(c) == seq![c],
        file_name(c) == Some(c),
        file_stem(c) is Some,
{
    text::lemma_split_free(c, '/');
    let f = |x: Seq<char>| x.len() > 0 && !is_dot(x);
    assert(seq![c].drop_last() =~= Seq::<Seq<char>>::empty());
    assert(seq![c].filter(f) =~= seq![c]) by {
        reveal(Seq::filter);
    }
}

} // verus!
