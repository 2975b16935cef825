//! The part of a generated scheme that the desktop writers read: for each
//! Material role, its variants (`default`, `dark`, `light`, ...) and the
//! string values of their `hex` and `color` keys.
use vstd::prelude::*;
use crate::settings::ColorMode;
use crate::text;

verus! {

/// The string values of a variant's `hex` and `color` keys (`None` where the
/// key is absent or not a string).
#[derive(Debug, Clone)]
pub struct ColorEntry {
    pub hex: Option<String>,
    pub color: Option<String>,
}

#[derive(Debug, Clone)]
pub struct ColorVariant {
    pub name: String,
    pub entry: ColorEntry,
}

#[derive(Debug, Clone)]
pub struct ColorRole {
    pub name: String,
    pub variants: Vec<ColorVariant>,
}

/// The `colors` object of a scheme context (empty where it is absent).
#[derive(Debug, Clone)]
pub struct SchemeContext {
    pub roles: Vec<ColorRole>,
}

pub open spec fn find_role(roles: Seq<ColorRole>, name: Seq<char>) -> Option<ColorRole>
    decreases roles.len(),
{
    if roles.len() == 0 {
        None
    } else if roles[0].name@ == name {
        Some(roles[0])
    } else {
        find_role(roles.drop_first(), name)
    }
}

pub open spec fn find_variant(vs: Seq<ColorVariant>, name: Seq<char>) -> Option<ColorEntry>
    decreases vs.len(),
{
    if vs.len() == 0 {
        None
    } else if vs[0].name@ == name {
        Some(vs[0].entry)
    } else {
        find_variant(vs.drop_first(), name)
    }
}

/// `context["colors"][name][variant]`, where present.
pub open spec fn entry_of(ctx: SchemeContext, name: Seq<char>, variant: Seq<char>) -> Option<
    ColorEntry,
> {
    match find_role(ctx.roles@, name) {
        Some(role) => find_variant(role.variants@, variant),
        None => None,
    }
}

pub open spec fn opt_view(o: Option<String>) -> Option<Seq<char>> {
    match o {
        Some(s) => Some(s@),
        None => None,
    }
}

pub fn str_eq(a: &str, b: &str) -> (r: bool)
    ensures
        r == (a@ == b@),
{
    let av = text::chars_of(a);
    let bv = text::chars_of(b);
    text::seq_eq(&av, &bv)
}

pub fn find_role_exec<'a>(roles: &'a Vec<ColorRole>, name: &str) -> (r: Option<&'a ColorRole>)
    ensures
        r matches Some(x) ==> find_role(roles@, name@) == Some(*x),
        r is None ==> find_role(roles@, name@) is None,
{
    let mut i: usize = 0;
    assert(roles@.skip(0) =~= roles@);
    while i < roles.len()
        invariant
            i <= roles.len(),
            find_role(roles@.skip(i as int), name@) == find_role(roles@, name@),
        decreases roles.len() - i,
    {
        assert(roles@.skip(i as int)[0] == roles@[i as int]);
        if str_eq(roles[i].name.as_str(), name) {
            return Some(&roles[i]);
        }
        assert(roles@.skip(i as int).drop_first() =~= roles@.skip(i + 1));
        i = i + 1;
    }
    assert(roles@.skip(i as int) =~= Seq::<ColorRole>::empty());
    None
}

pub fn find_variant_exec<'a>(vs: &'a Vec<ColorVariant>, name: &str) -> (r: Option<&'a ColorEntry>)
    ensures
        r matches Some(x) ==> find_variant(vs@, name@) == Some(*x),
        r is None ==> find_variant(vs@, name@) is None,
{
    let mut i: usize = 0;
    assert(vs@.skip(0) =~= vs@);
    while i < vs.len()
        invariant
            i <= vs.len(),
            find_variant(vs@.skip(i as int), name@) == find_variant(vs@, name@),
        decreases vs.len() - i,
    {
        assert(vs@.skip(i as int)[0] == vs@[i as int]);
        if str_eq(vs[i].name.as_str(), name) {
            return Some(&vs[i].entry);
        }
        assert(vs@.skip(i as int).drop_first() =~= vs@.skip(i + 1));
        i = i + 1;
    }
    assert(vs@.skip(i as int) =~= Seq::<ColorVariant>::empty());
    None
}

impl SchemeContext {
    /// `context["colors"][name][variant]`.
    pub fn entry<'a>(&'a self, name: &str, variant: &str) -> (r: Option<&'a ColorEntry>)
        ensures
            r matches Some(x) ==> entry_of(*self, name@, variant@) == Some(*x),
            r is None ==> entry_of(*self, name@, variant@) is None,
    {
        match find_role_exec(&self.roles, name) {
            Some(role) => find_variant_exec(&role.variants, variant),
            None => None,
        }
    }
}


// ── The light or dark variant as default ─────────────────────────────────────

/// A variant lookup once the chosen variant (`dark` or `light`) has become the
/// default: `default` gives the chosen entry where the group has one.
pub open spec fn mode_variant(vs: Seq<ColorVariant>, v: Seq<char>, chosen: Seq<char>) -> Option<ColorEntry> {
    if v == "default"@ && find_variant(vs, chosen) is Some {
        find_variant(vs, chosen)
    } else {
        find_variant(vs, v)
    }
}

/// `resolve_mode`'s decision: dark for `Dark`, light for `Light`, and for
/// `Auto` what the wallpaper's luminance said (`auto_dark`).
pub open spec fn mode_is_dark(mode: ColorMode, auto_dark: bool) -> bool {
    match mode {
        ColorMode::Dark => true,
        ColorMode::Light => false,
        ColorMode::Auto => auto_dark,
    }
}

pub fn copy_entry(e: &ColorEntry) -> (r: ColorEntry)
    ensures
        r == *e,
{
    ColorEntry {
        hex: match &e.hex {
            Some(s) => Some(s.clone()),
            None => None,
        },
        color: match &e.color {
            Some(s) => Some(s.clone()),
            None => None,
        },
    }
}

proof fn lemma_find_variant_set(vs: Seq<ColorVariant>, j: int, x: ColorVariant, v: Seq<char>)
    requires
        0 <= j < vs.len(),
        x.name == vs[j].name,
        forall|k: int| 0 <= k < j ==> #[trigger] vs[k].name@ != vs[j].name@,
    ensures
        find_variant(vs.update(j, x), v) == (if v == vs[j].name@ {
            Some(x.entry)
        } else {
            find_variant(vs, v)
        }),
    decreases j,
{
    if j > 0 {
        assert(vs.update(j, x).drop_first() =~= vs.drop_first().update(j - 1, x));
        assert forall|k: int| 0 <= k < j - 1 implies #[trigger] vs.drop_first()[k].name@ != vs.drop_first()[j
            - 1].name@ by {
            assert(vs.drop_first()[k] == vs[k + 1]);
        }
        assert(vs.update(j, x)[0] == vs[0]);
        if v == vs[0].name@ {
            assert(vs[0].name@ != vs[j].name@);
        }
        lemma_find_variant_set(vs.drop_first(), j - 1, x, v);
    } else {
        assert(vs.update(0, x)[0] == x);
        assert(vs.update(0, x).drop_first() =~= vs.drop_first());
    }
}

proof fn lemma_find_variant_push(vs: Seq<ColorVariant>, x: ColorVariant, v: Seq<char>)
    requires
        forall|k: int| 0 <= k < vs.len() ==> #[trigger] vs[k].name@ != x.name@,
    ensures
        find_variant(vs.push(x), v) == (if v == x.name@ {
            Some(x.entry)
        } else {
            find_variant(vs, v)
        }),
    decreases vs.len(),
{
    if vs.len() > 0 {
        assert(vs.push(x).drop_first() =~= vs.drop_first().push(x));
        assert forall|k: int| 0 <= k < vs.drop_first().len() implies #[trigger] vs.drop_first()[k].name@
            != x.name@ by {
            assert(vs.drop_first()[k] == vs[k + 1]);
        }
        assert(vs.push(x)[0] == vs[0]);
        assert(vs[0].name@ != x.name@);
        lemma_find_variant_push(vs.drop_first(), x, v);
    } else {
        assert(vs.push(x) =~= seq![x]);
        assert(seq![x][0] == x);
        assert(seq![x].drop_first() =~= Seq::<ColorVariant>::empty());
        assert(find_variant(Seq::<ColorVariant>::empty(), v) is None);
        assert(find_variant(vs, v) is None);
    }
}

fn role_with_default(role: ColorRole, chosen: &str) -> (r: ColorRole)
    ensures
        r.name == role.name,
        forall|v: Seq<char>| #[trigger] find_variant(r.variants@, v) == mode_variant(role.variants@, v, chosen@),
{
    let e = match find_variant_exec(&role.variants, chosen) {
        Some(e) => copy_entry(e),
        None => return role,
    };
    let ghost old_vs = role.variants@;
    let mut vs = role.variants;
    let mut j: usize = 0;
    while j < vs.len() && !str_eq(vs[j].name.as_str(), "default")
        invariant
            j <= vs.len(),
            vs@ == old_vs,
            forall|k: int| 0 <= k < j ==> #[trigger] vs@[k].name@ != "default"@,
        decreases vs.len() - j,
    {
        j = j + 1;
    }
    if j < vs.len() {
        let x = ColorVariant { name: vs[j].name.clone(), entry: e };
        proof {
            assert forall|v: Seq<char>| #[trigger] find_variant(old_vs.update(j as int, x), v) == mode_variant(
                old_vs,
                v,
                chosen@,
            ) by {
                lemma_find_variant_set(old_vs, j as int, x, v);
            }
        }
        vs.set(j, x);
    } else {
        let x = ColorVariant { name: String::from_str("default"), entry: e };
        proof {
            assert forall|v: Seq<char>| #[trigger] find_variant(old_vs.push(x), v) == mode_variant(
                old_vs,
                v,
                chosen@,
            ) by {
                lemma_find_variant_push(old_vs, x, v);
            }
        }
        vs.push(x);
    }
    ColorRole { name: role.name, variants: vs }
}

/// `resolve_mode`: every group's chosen variant (`dark` or `light`) becomes its
/// default, and the decision is returned. `auto_dark` is what `Auto` decides
/// from the wallpaper's luminance.
pub fn resolve_mode(context: &mut SchemeContext, mode: ColorMode, auto_dark: bool) -> (dark: bool)
    ensures
        dark == mode_is_dark(mode, auto_dark),
        final(context).roles.len() == old(context).roles.len(),
        forall|i: int| 0 <= i < old(context).roles.len() ==> #[trigger] final(context).roles@[i].name
            == old(context).roles@[i].name,
        forall|i: int, v: Seq<char>|
            0 <= i < old(context).roles.len() ==> #[trigger] find_variant(final(context).roles@[i].variants@, v)
                == mode_variant(old(context).roles@[i].variants@, v, if dark {
                "dark"@
            } else {
                "light"@
            }),
{
    let dark = match mode {
        ColorMode::Dark => true,
        ColorMode::Light => false,
        ColorMode::Auto => auto_dark,
    };
    let chosen = if dark { "dark" } else { "light" };
    let ghost old_roles = context.roles@;
    let mut rest: Vec<ColorRole> = Vec::new();
    std::mem::swap(&mut rest, &mut context.roles);
    let mut out: Vec<ColorRole> = Vec::new();
    let ghost n = rest.len();
    while rest.len() > 0
        invariant
            n == old_roles.len(),
            rest.len() <= n,
            out.len() == n - rest.len(),
            rest@ == old_roles.skip(n - rest.len()),
            forall|i: int| 0 <= i < out.len() ==> #[trigger] out@[i].name == old_roles[i].name,
            forall|i: int, v: Seq<char>|
                0 <= i < out.len() ==> #[trigger] find_variant(out@[i].variants@, v) == mode_variant(
                    old_roles[i].variants@,
                    v,
                    chosen@,
                ),
        decreases rest.len(),
    {
        let ghost k = out.len();
        let ghost rv = rest@;
        let role = rest.remove(0);
        assert(role == old_roles[k as int]);
        assert(rest@ =~= old_roles.skip(n - rest.len()));
        let r = role_with_default(role, chosen);
        out.push(r);
    }
    context.roles = out;
    dark
}

} // verus!
