//! KConfig (INI) patching that keeps unrelated keys, comments and geometry.
use vstd::prelude::*;
use crate::text;
use crate::text::{lines, trim, unlines, views};

verus! {

/// One `key=value` assignment inside `[group]`.
#[derive(Debug, Clone)]
pub struct IniPatch {
    pub group: String,
    pub key: String,
    pub value: String,
}

pub open spec fn header_line(group: Seq<char>) -> Seq<char> {
    seq!['['] + group + seq![']']
}

pub open spec fn kv_line(key: Seq<char>, value: Seq<char>) -> Seq<char> {
    key + seq!['='] + value
}

/// `[$i]` marks a KConfig group or key as immutable.
pub open spec fn immutable_marker() -> Seq<char> {
    seq!['[', '$', 'i', ']']
}

/// The trimmed text before the first `=` of a line, if it has one.
pub open spec fn key_part(line: Seq<char>) -> Option<Seq<char>> {
    match text::find(line, seq!['=']) {
        Some(i) => Some(trim(line.take(i))),
        None => None,
    }
}

pub open spec fn immutable_group_line(line: Seq<char>, group: Seq<char>) -> bool {
    trim(line) == header_line(group) + immutable_marker() || trim(line) == immutable_marker()
}

pub open spec fn group_immutable(ls: Seq<Seq<char>>, group: Seq<char>) -> bool {
    exists|i: int| 0 <= i < ls.len() && immutable_group_line(#[trigger] ls[i], group)
}

/// The first line at or after `from` that is the header `h`, else `ls.len()`.
pub open spec fn header_index(ls: Seq<Seq<char>>, from: int, h: Seq<char>) -> int
    decreases ls.len() - from,
{
    if from < 0 || from >= ls.len() {
        ls.len() as int
    } else if trim(ls[from]) == h {
        from
    } else {
        header_index(ls, from + 1, h)
    }
}

/// The first line at or after `from` that opens a group, else `ls.len()`.
pub open spec fn section_end(ls: Seq<Seq<char>>, from: int) -> int
    decreases ls.len() - from,
{
    if from < 0 || from >= ls.len() {
        ls.len() as int
    } else if text::starts_with(trim(ls[from]), seq!['[']) {
        from
    } else {
        section_end(ls, from + 1)
    }
}

/// The lines with the group's header present, and where its section starts.
pub open spec fn with_header(ls: Seq<Seq<char>>, group: Seq<char>) -> (Seq<Seq<char>>, int) {
    let h = header_index(ls, 0, header_line(group));
    if h < ls.len() {
        (ls, h + 1)
    } else {
        (ls.push(header_line(group)), ls.len() + 1int)
    }
}

pub open spec fn key_in_range(ls: Seq<Seq<char>>, start: int, end: int, k: Seq<char>) -> bool {
    exists|j: int| start <= j < end && key_part(#[trigger] ls[j]) == Some(k)
}

pub open spec fn replace_key_lines(
    ls: Seq<Seq<char>>,
    start: int,
    end: int,
    key: Seq<char>,
    value: Seq<char>,
) -> Seq<Seq<char>> {
    Seq::new(
        ls.len(),
        |j: int|
            if start <= j < end && key_part(ls[j]) == Some(key) {
                kv_line(key, value)
            } else {
                ls[j]
            },
    )
}

pub open spec fn group_immutable_msg(group: Seq<char>) -> Seq<char> {
    "KDE configuration group "@ + group + " is immutable"@
}

pub open spec fn key_immutable_msg(key: Seq<char>) -> Seq<char> {
    "KDE configuration key "@ + key + " is immutable"@
}

/// The lines after setting `key=value` in `[group]`: every assignment of the
/// key in the group's section is replaced; where there is none, one is added at
/// the section's end (after a new header where the group is missing).
pub open spec fn patched_lines(
    ls: Seq<Seq<char>>,
    group: Seq<char>,
    key: Seq<char>,
    value: Seq<char>,
) -> Seq<Seq<char>> {
    let (ls2, start) = with_header(ls, group);
    let end = section_end(ls2, start);
    let ls3 = replace_key_lines(ls2, start, end, key, value);
    if key_in_range(ls2, start, end, key) {
        ls3
    } else {
        ls3.insert(end, kv_line(key, value))
    }
}

/// One patch applied to a whole file.
pub open spec fn patch_one(content: Seq<char>, group: Seq<char>, key: Seq<char>, value: Seq<char>) -> Result<
    Seq<char>,
    Seq<char>,
> {
    let ls = lines(content);
    let (ls2, start) = with_header(ls, group);
    let end = section_end(ls2, start);
    if group_immutable(ls, group) {
        Err(group_immutable_msg(group))
    } else if key_in_range(ls2, start, end, key + immutable_marker()) {
        Err(key_immutable_msg(key))
    } else {
        Ok(unlines(patched_lines(ls, group, key, value)))
    }
}

pub open spec fn patch_view(p: IniPatch) -> (Seq<char>, Seq<char>, Seq<char>) {
    (p.group@, p.key@, p.value@)
}

/// The patches applied in order; the first refusal stops the run.
pub open spec fn patch_all(content: Seq<char>, ps: Seq<(Seq<char>, Seq<char>, Seq<char>)>) -> Result<
    Seq<char>,
    Seq<char>,
>
    decreases ps.len(),
{
    if ps.len() == 0 {
        Ok(content)
    } else {
        match patch_one(content, ps[0].0, ps[0].1, ps[0].2) {
            Ok(next) => patch_all(next, ps.drop_first()),
            Err(e) => Err(e),
        }
    }
}

pub open spec fn patches_view(ps: Seq<IniPatch>) -> Seq<(Seq<char>, Seq<char>, Seq<char>)> {
    ps.map_values(|p: IniPatch| patch_view(p))
}

// ── Executable ───────────────────────────────────────────────────────────────

fn lit(s: &str) -> (r: Vec<char>)
    ensures
        r@ == s@,
{
    text::chars_of(s)
}

fn key_part_exec(line: &[char]) -> (r: Option<Vec<char>>)
    ensures
        r matches Some(k) ==> key_part(line@) == Some(k@),
        r is None ==> key_part(line@) is None,
{
    let eq = vec!['='];
    assert(eq@ =~= seq!['=']);
    match text::find_exec(line, &eq) {
        Some(i) => {
            proof {
                text::lemma_find_is_first(line@, eq@);
            }
            let prefix = text::slice_of(line, 0, i);
            assert(prefix@ =~= line@.take(i as int));
            Some(text::trim_exec(&prefix))
        },
        None => None,
    }
}

fn header_line_exec(group: &[char]) -> (r: Vec<char>)
    ensures
        r@ == header_line(group@),
{
    let mut h: Vec<char> = Vec::new();
    h.push('[');
    text::push_all(&mut h, group);
    h.push(']');
    assert(h@ =~= header_line(group@));
    h
}

fn kv_line_exec(key: &[char], value: &[char]) -> (r: Vec<char>)
    ensures
        r@ == kv_line(key@, value@),
{
    let mut l: Vec<char> = Vec::new();
    text::push_all(&mut l, key);
    l.push('=');
    text::push_all(&mut l, value);
    assert(l@ =~= kv_line(key@, value@));
    l
}

fn header_index_exec(ls: &Vec<Vec<char>>, h: &[char]) -> (r: usize)
    ensures
        r as int == header_index(views(ls@), 0, h@),
        r <= ls.len(),
{
    let ghost lv = views(ls@);
    let mut i: usize = 0;
    while i < ls.len()
        invariant
            lv == views(ls@),
            i <= ls.len(),
            header_index(lv, 0, h@) == header_index(lv, i as int, h@),
        decreases ls.len() - i,
    {
        let t = text::trim_exec(&ls[i]);
        assert(lv[i as int] == ls@[i as int]@);
        if text::seq_eq(&t, h) {
            return i;
        }
        i = i + 1;
    }
    i
}

fn section_end_exec(ls: &Vec<Vec<char>>, from: usize) -> (r: usize)
    requires
        from <= ls.len(),
    ensures
        r as int == section_end(views(ls@), from as int),
        from <= r <= ls.len(),
{
    let ghost lv = views(ls@);
    let open = vec!['['];
    assert(open@ =~= seq!['[']);
    let mut i: usize = from;
    while i < ls.len()
        invariant
            lv == views(ls@),
            open@ == seq!['['],
            from <= i <= ls.len(),
            section_end(lv, from as int) == section_end(lv, i as int),
        decreases ls.len() - i,
    {
        let t = text::trim_exec(&ls[i]);
        assert(lv[i as int] == ls@[i as int]@);
        if text::starts_with_exec(&t, &open) {
            return i;
        }
        i = i + 1;
    }
    i
}

/// Sets `key=value` inside `[group]` of `content`.
pub fn patch_one_exec(content: &[char], group: &[char], key: &[char], value: &[char]) -> (r: Result<
    Vec<char>,
    String,
>)
    ensures
        r matches Ok(c) ==> patch_one(content@, group@, key@, value@) == Ok::<Seq<char>, Seq<char>>(
            c@,
        ),
        r matches Err(e) ==> patch_one(content@, group@, key@, value@) == Err::<
            Seq<char>,
            Seq<char>,
        >(e@),
{
    let mut ls = text::lines_exec(content);
    let ghost lv = lines(content@);
    // An immutable group anywhere in the file refuses the patch.
    let header = header_line_exec(group);
    let marker = lit("[$i]");
    proof {
        reveal_strlit("[$i]");
    }
    assert(marker@ =~= immutable_marker());
    let mut immutable_header = header_line_exec(group);
    text::push_all(&mut immutable_header, &marker);
    let mut i: usize = 0;
    while i < ls.len()
        invariant
            views(ls@) == lv,
            lv == lines(content@),
            i <= ls.len(),
            marker@ == immutable_marker(),
            immutable_header@ == header_line(group@) + immutable_marker(),
            forall|j: int| 0 <= j < i ==> !immutable_group_line(#[trigger] lv[j], group@),
        decreases ls.len() - i,
    {
        let t = text::trim_exec(&ls[i]);
        assert(lv[i as int] == ls@[i as int]@);
        if text::seq_eq(&t, &immutable_header) || text::seq_eq(&t, &marker) {
            assert(immutable_group_line(lv[i as int], group@));
            let mut msg = String::from_str("KDE configuration group ");
            msg.append(text::string_of(group).as_str());
            msg.append(" is immutable");
            return Err(msg);
        }
        i = i + 1;
    }
    assert(!group_immutable(lv, group@));
    let h = header_index_exec(&ls, &header);
    let start: usize;
    if h < ls.len() {
        start = h + 1;
    } else {
        ls.push(header_line_exec(group));
        start = ls.len();
        assert(views(ls@) =~= lv.push(header_line(group@)));
    }
    let ghost lv2 = views(ls@);
    assert((lv2, start as int) == with_header(lv, group@));
    let end = section_end_exec(&ls, start);
    let mut immutable_key: Vec<char> = text::slice_of(key, 0, key.len());
    text::push_all(&mut immutable_key, &marker);
    let kv = kv_line_exec(key, value);
    let mut found = false;
    let mut j: usize = start;
    while j < end
        invariant
            lv == lines(content@),
            (lv2, start as int) == with_header(lv, group@),
            end as int == section_end(lv2, start as int),
            !group_immutable(lv, group@),
            start <= j <= end <= ls.len(),
            lv2.len() == ls.len(),
            immutable_key@ == key@ + immutable_marker(),
            kv@ == kv_line(key@, value@),
            forall|k: int| 0 <= k < ls.len() ==> #[trigger] ls@[k]@ == (if start <= k < j
                && key_part(lv2[k]) == Some(key@) {
                kv_line(key@, value@)
            } else {
                lv2[k]
            }),
            found == key_in_range(lv2, start as int, j as int, key@),
            !key_in_range(lv2, start as int, j as int, key@ + immutable_marker()),
        decreases end - j,
    {
        let ghost before = ls@;
        let kp = key_part_exec(&ls[j]);
        assert(ls@[j as int]@ == lv2[j as int]);
        match kp {
            Some(k) => {
                if text::seq_eq(&k, &immutable_key) {
                    assert(key_in_range(lv2, start as int, end as int, key@ + immutable_marker()));
                    let mut msg = String::from_str("KDE configuration key ");
                    msg.append(text::string_of(key).as_str());
                    msg.append(" is immutable");
                    return Err(msg);
                }
                if text::seq_eq(&k, key) {
                    ls.set(j, kv.clone());
                    found = true;
                }
            },
            None => {},
        }
        assert forall|k: int| 0 <= k < ls.len() implies #[trigger] ls@[k]@ == (if start <= k < j
            + 1 && key_part(lv2[k]) == Some(key@) {
            kv_line(key@, value@)
        } else {
            lv2[k]
        }) by {
            if k != j {
                assert(ls@[k] == before[k]);
            }
        }
        assert(found == key_in_range(lv2, start as int, j + 1, key@)) by {
            if found && !key_in_range(lv2, start as int, j as int, key@) {
                assert(key_part(lv2[j as int]) == Some(key@));
            }
        }
        j = j + 1;
    }
    let ghost ls3 = replace_key_lines(lv2, start as int, end as int, key@, value@);
    assert(views(ls@) =~= ls3);
    if !found {
        ls.insert(end, kv);
        assert(views(ls@) =~= ls3.insert(end as int, kv_line(key@, value@)));
    }
    assert(views(ls@) == patched_lines(lv, group@, key@, value@));
    Ok(text::unlines_exec(&ls))
}

/// Applies `patches` in order to `content`. A group marked `[$i]` anywhere in
/// the file, or a `key[$i]` in the patched section, refuses the patch.
pub fn patch_ini(content: &str, patches: &Vec<IniPatch>) -> (r: Result<String, String>)
    ensures
        r matches Ok(c) ==> patch_all(content@, patches_view(patches@)) == Ok::<
            Seq<char>,
            Seq<char>,
        >(c@),
        r matches Err(e) ==> patch_all(content@, patches_view(patches@)) == Err::<
            Seq<char>,
            Seq<char>,
        >(e@),
{
    let mut output = text::chars_of(content);
    let ghost ps = patches_view(patches@);
    let mut i: usize = 0;
    assert(ps.skip(0) =~= ps);
    while i < patches.len()
        invariant
            i <= patches.len(),
            ps == patches_view(patches@),
            patch_all(output@, ps.skip(i as int)) == patch_all(content@, ps),
        decreases patches.len() - i,
    {
        let p = &patches[i];
        let g = text::chars_of(p.group.as_str());
        let k = text::chars_of(p.key.as_str());
        let v = text::chars_of(p.value.as_str());
        assert(ps.skip(i as int)[0] == patch_view(patches@[i as int]));
        assert(ps.skip(i as int).drop_first() =~= ps.skip(i + 1));
        match patch_one_exec(&output, &g, &k, &v) {
            Ok(next) => {
                output = next;
            },
            Err(e) => {
                return Err(e);
            },
        }
        i = i + 1;
    }
    assert(ps.skip(i as int) =~= Seq::<(Seq<char>, Seq<char>, Seq<char>)>::empty());
    Ok(text::string_of(&output))
}


// ── Patching twice changes nothing more ──────────────────────────────────────

/// A patch that reads back as written: no line breaks; a key without `=` or
/// surrounding whitespace that does not open a group; a group other than
/// `$i`; a value that does not end with a carriage return.
pub open spec fn plain_patch(group: Seq<char>, key: Seq<char>, value: Seq<char>) -> bool {
    &&& text::free_of(group, '\n')
    &&& group != seq!['$', 'i']
    &&& text::free_of(key, '\n')
    &&& text::free_of(key, '=')
    &&& trim(key) == key
    &&& !(key.len() > 0 && key[0] == '[')
    &&& text::free_of(value, '\n')
    &&& !(value.len() > 0 && value.last() == '\r')
}

/// No line of the text ends with a carriage return (`str::lines` would drop
/// one that a rewrite puts before a line break).
pub open spec fn no_cr_ends(ls: Seq<Seq<char>>) -> bool {
    forall|i: int| 0 <= i < ls.len() ==> !(#[trigger] ls[i].len() > 0 && ls[i].last() == '\r')
}

/// A line that survives a rewrite and does not make the group immutable.
pub open spec fn line_ok(x: Seq<char>, group: Seq<char>) -> bool {
    &&& text::free_of(x, '\n')
    &&& !(x.len() > 0 && x.last() == '\r')
    &&& !immutable_group_line(x, group)
}

pub open spec fn all_ok(ls: Seq<Seq<char>>, group: Seq<char>) -> bool {
    forall|i: int| 0 <= i < ls.len() ==> line_ok(#[trigger] ls[i], group)
}

proof fn lemma_header_index_props(ls: Seq<Seq<char>>, from: int, h: Seq<char>)
    requires
        0 <= from <= ls.len(),
    ensures
        from <= header_index(ls, from, h) <= ls.len(),
        header_index(ls, from, h) < ls.len() ==> trim(ls[header_index(ls, from, h)]) == h,
        forall|j: int| from <= j < header_index(ls, from, h) ==> trim(#[trigger] ls[j]) != h,
    decreases ls.len() - from,
{
    if from < ls.len() && trim(ls[from]) != h {
        lemma_header_index_props(ls, from + 1, h);
    }
}

proof fn lemma_header_index_at(ls: Seq<Seq<char>>, from: int, h: Seq<char>, r: int)
    requires
        0 <= from <= r < ls.len(),
        trim(ls[r]) == h,
        forall|j: int| from <= j < r ==> trim(#[trigger] ls[j]) != h,
    ensures
        header_index(ls, from, h) == r,
    decreases r - from,
{
    if from < r {
        assert(trim(ls[from]) != h);
        lemma_header_index_at(ls, from + 1, h, r);
    }
}

proof fn lemma_section_end_props(ls: Seq<Seq<char>>, from: int)
    requires
        0 <= from <= ls.len(),
    ensures
        from <= section_end(ls, from) <= ls.len(),
        section_end(ls, from) < ls.len() ==> text::starts_with(trim(ls[section_end(ls, from)]), seq!['[']),
        forall|j: int| from <= j < section_end(ls, from) ==> !text::starts_with(trim(#[trigger] ls[j]), seq!['[']),
    decreases ls.len() - from,
{
    if from < ls.len() && !text::starts_with(trim(ls[from]), seq!['[']) {
        lemma_section_end_props(ls, from + 1);
    }
}

proof fn lemma_section_end_at(ls: Seq<Seq<char>>, from: int, r: int)
    requires
        0 <= from <= r <= ls.len(),
        r < ls.len() ==> text::starts_with(trim(ls[r]), seq!['[']),
        forall|j: int| from <= j < r ==> !text::starts_with(trim(#[trigger] ls[j]), seq!['[']),
    ensures
        section_end(ls, from) == r,
    decreases r - from,
{
    if from < r {
        assert(!text::starts_with(trim(ls[from]), seq!['[']));
        lemma_section_end_at(ls, from + 1, r);
    }
}

/// What the key-value line of a plain patch is like.
proof fn lemma_kv_line(key: Seq<char>, value: Seq<char>, group: Seq<char>)
    requires
        plain_patch(group, key, value),
    ensures
        key_part(kv_line(key, value)) == Some(key),
        !text::starts_with(trim(kv_line(key, value)), seq!['[']),
        line_ok(kv_line(key, value), group),
        line_ok(header_line(group), group),
        trim(header_line(group)) == header_line(group),
        text::starts_with(trim(header_line(group)), seq!['[']),
{
    let kv = kv_line(key, value);
    let eq = seq!['='];
    assert(kv[key.len() as int] == '=');
    assert(kv.subrange(key.len() as int, (key.len() + 1) as int) =~= eq);
    assert forall|j: int| 0 <= j < key.len() implies !text::occurs_at(kv, eq, j) by {
        assert(kv[j] == key[j]);
        if text::occurs_at(kv, eq, j) {
            assert(kv.subrange(j, j + 1)[0] == kv[j]);
        }
    }
    text::lemma_find_first(kv, eq, key.len() as int);
    assert(kv.take(key.len() as int) =~= key);
    // The first character of the line is not whitespace and not `[`.
    let first = if key.len() > 0 {
        key[0]
    } else {
        '='
    };
    assert(kv[0] == first);
    if key.len() > 0 {
        text::lemma_trim_start_suffix(key);
        assert(trim(key) == text::trim_end(text::trim_start(key)));
        if text::is_ws(key[0]) {
            assert(text::trim_start(key) == text::trim_start(key.drop_first()));
            assert(text::trim_start(key).len() < key.len()) by {
                text::lemma_trim_start_suffix(key.drop_first());
            }
            lemma_trim_end_shorter(text::trim_start(key));
        }
    }
    assert(!text::is_ws(first));
    assert(text::trim_start(kv) == kv);
    lemma_trim_end_prefix(kv);
    let t = trim(kv);
    assert(t.len() > 0 ==> t[0] == kv[0]);
    assert forall|j: int| 0 <= j < kv.len() implies #[trigger] kv[j] != '\n' by {
        if j < key.len() {
            assert(kv[j] == key[j]);
        } else if j > key.len() {
            assert(kv[j] == value[j - key.len() - 1]);
        }
    }
    assert(kv.last() == (if value.len() > 0 {
        value.last()
    } else {
        '='
    }));
    let h = header_line(group);
    assert(h[0] == '[');
    assert(h.last() == ']');
    assert(text::trim_start(h) == h);
    assert(text::trim_end(h) == h);
    assert(h.subrange(0, 1) =~= seq!['[']);
    assert forall|j: int| 0 <= j < h.len() implies #[trigger] h[j] != '\n' by {
        if 0 < j < h.len() - 1 {
            assert(h[j] == group[j - 1]);
        }
    }
    // Neither line is an immutability marker.
    if trim(kv) == header_line(group) + immutable_marker() || trim(kv) == immutable_marker() {
        assert(t[0] == '[');
    }
    if h == header_line(group) + immutable_marker() {
        assert(h.len() != (header_line(group) + immutable_marker()).len());
    }
    if h == immutable_marker() {
        assert(group =~= seq!['$', 'i']) by {
            assert(group.len() == 2);
            assert(group[0] == h[1]);
            assert(group[1] == h[2]);
        }
    }
}

proof fn lemma_trim_end_shorter(s: Seq<char>)
    ensures
        text::trim_end(s).len() <= s.len(),
    decreases s.len(),
{
    if s.len() > 0 && text::is_ws(s.last()) {
        lemma_trim_end_shorter(s.drop_last());
    }
}

/// `trim_end` keeps a prefix.
proof fn lemma_trim_end_prefix(s: Seq<char>)
    ensures
        text::trim_end(s).len() <= s.len(),
        text::trim_end(s) == s.take(text::trim_end(s).len() as int),
    decreases s.len(),
{
    if s.len() > 0 && text::is_ws(s.last()) {
        lemma_trim_end_prefix(s.drop_last());
        assert(s.drop_last().take(text::trim_end(s).len() as int) =~= s.take(text::trim_end(s).len() as int));
    } else {
        assert(s.take(s.len() as int) =~= s);
    }
}

/// One patch leaves lines that it has settled: the result reads back as its
/// own lines, which hold the patch and nothing more to rewrite.
proof fn lemma_patch_settles(content: Seq<char>, group: Seq<char>, key: Seq<char>, value: Seq<char>)
    requires
        patch_one(content, group, key, value) is Ok,
        plain_patch(group, key, value),
        no_cr_ends(lines(content)),
    ensures
        ({
            let ls1 = patched_lines(lines(content), group, key, value);
            &&& patch_one(content, group, key, value) == Ok::<Seq<char>, Seq<char>>(unlines(ls1))
            &&& clean_lines(ls1)
            &&& ls1.len() >= 1
            &&& lines(unlines(ls1)) == ls1
            &&& settled(ls1, group, key, value)
        }),
{
    let ls = lines(content);
    let hl = header_line(group);
    let kv = kv_line(key, value);
    let marked = key + immutable_marker();
    lemma_kv_line(key, value, group);
    text::lemma_lines_free(content);
    assert(all_ok(ls, group)) by {
        assert forall|i: int| 0 <= i < ls.len() implies line_ok(#[trigger] ls[i], group) by {
            assert forall|j: int| 0 <= j < ls[i].len() implies #[trigger] ls[i][j] != '\n' by {
                assert(ls[i][j] != '\n');
            }
            if immutable_group_line(ls[i], group) {
                assert(group_immutable(ls, group));
            }
        }
    }
    let (ls2, start) = with_header(ls, group);
    lemma_header_index_props(ls, 0, hl);
    let h = start - 1;
    assert(0 <= h < ls2.len() && trim(ls2[h]) == hl);
    assert(forall|j: int| 0 <= j < h ==> trim(#[trigger] ls2[j]) != hl);
    assert(all_ok(ls2, group));
    lemma_section_end_props(ls2, start);
    let end = section_end(ls2, start);
    let ls3 = replace_key_lines(ls2, start, end, key, value);
    let found = key_in_range(ls2, start, end, key);
    let ls1 = patched_lines(ls, group, key, value);
    assert(ls1 == (if found {
        ls3
    } else {
        ls3.insert(end, kv)
    }));
    let end1 = if found {
        end
    } else {
        end + 1
    };
    // Where each line of the result comes from.
    assert forall|j: int| 0 <= j < ls1.len() implies #[trigger] ls1[j] == (if j < end {
        if start <= j && key_part(ls2[j]) == Some(key) {
            kv
        } else {
            ls2[j]
        }
    } else if !found && j == end {
        kv
    } else if found {
        ls2[j]
    } else {
        ls2[j - 1]
    }) by {}
    assert(ls1.len() == ls2.len() + (if found {
        0int
    } else {
        1int
    }));
    assert(all_ok(ls1, group));
    // The result reads back as itself.
    assert(ls1.len() >= 1);
    assert(text::none_hold(ls1, '\n')) by {
        assert forall|i: int, j: int| 0 <= i < ls1.len() && 0 <= j < ls1[i].len() implies #[trigger] ls1[i][j]
            != '\n' by {
            assert(line_ok(ls1[i], group));
        }
    }
    text::lemma_lines_unlines(ls1);
    assert(text::strip_cr_all(ls1) =~= ls1) by {
        assert forall|i: int| 0 <= i < ls1.len() implies text::strip_cr(#[trigger] ls1[i]) == ls1[i] by {
            assert(line_ok(ls1[i], group));
        }
    }
    let c1 = unlines(ls1);
    assert(patch_one(content, group, key, value) == Ok::<Seq<char>, Seq<char>>(c1));
    assert(lines(c1) == ls1);
    // The header is found where it was.
    lemma_header_index_at(ls1, 0, hl, h);
    assert(with_header(ls1, group) == (ls1, start));
    // The section now ends one later where a line was added.
    assert forall|j: int| start <= j < end1 implies !text::starts_with(trim(#[trigger] ls1[j]), seq!['[']) by {
        if j < end {
            if !(key_part(ls2[j]) == Some(key)) {
                assert(!text::starts_with(trim(ls2[j]), seq!['[']));
            }
        }
    }
    if end1 < ls1.len() {
        if found {
            assert(ls1[end1] == ls2[end]);
        } else {
            assert(ls1[end1] == ls2[end]);
        }
    }
    lemma_section_end_at(ls1, start, end1);
    // Every assignment of the key in the section is already the patch's.
    assert(key_in_range(ls1, start, end1, key)) by {
        if found {
            let j = choose|j: int| start <= j < end && key_part(#[trigger] ls2[j]) == Some(key);
            assert(ls1[j] == kv);
        } else {
            assert(ls1[end] == kv);
        }
    }
    assert(replace_key_lines(ls1, start, end1, key, value) =~= ls1) by {
        assert forall|j: int| 0 <= j < ls1.len() implies #[trigger] replace_key_lines(ls1, start, end1, key, value)[j]
            == ls1[j] by {
            if start <= j < end1 && key_part(ls1[j]) == Some(key) {
                if j < end && !(key_part(ls2[j]) == Some(key)) {
                    assert(ls1[j] == ls2[j]);
                }
            }
        }
    }
    assert(patched_lines(ls1, group, key, value) == ls1);
    // No refusal: the lines are not immutable, and no marked key appears.
    assert(!group_immutable(ls1, group)) by {
        if group_immutable(ls1, group) {
            let i = choose|i: int| 0 <= i < ls1.len() && immutable_group_line(#[trigger] ls1[i], group);
            assert(line_ok(ls1[i], group));
        }
    }
    assert(!key_in_range(ls2, start, end, marked));
    assert(!key_in_range(ls1, start, end1, marked)) by {
        if key_in_range(ls1, start, end1, marked) {
            let j = choose|j: int| start <= j < end1 && key_part(#[trigger] ls1[j]) == Some(marked);
            assert(marked.len() == key.len() + 4);
            if ls1[j] == kv {
                assert(key != marked);
            } else {
                assert(j < end && ls1[j] == ls2[j]);
                assert(key_part(ls2[j]) == Some(marked));
            }
        }
    }
    assert(header_index(ls1, 0, hl) == h);
    assert(section_end(ls1, h + 1) == end1);
    assert forall|j: int| h + 1 <= j < end1 && key_part(#[trigger] ls1[j]) == Some(key) implies ls1[j] == kv by {
        assert(replace_key_lines(ls1, start, end1, key, value)[j] == ls1[j]);
    }
    assert(no_cr_ends(ls1)) by {
        assert forall|i: int| 0 <= i < ls1.len() implies !(#[trigger] ls1[i].len() > 0 && ls1[i].last() == '\r') by {
            assert(line_ok(ls1[i], group));
        }
    }
}

/// A plain patch applied once leaves nothing for a second application to do:
/// the text comes out the same, wherever the first one succeeded and no line
/// of the input text ended with a carriage return.
pub proof fn lemma_patch_idempotent(content: Seq<char>, group: Seq<char>, key: Seq<char>, value: Seq<char>)
    requires
        patch_one(content, group, key, value) is Ok,
        plain_patch(group, key, value),
        no_cr_ends(lines(content)),
    ensures
        patch_one(patch_one(content, group, key, value)->Ok_0, group, key, value) == patch_one(
            content,
            group,
            key,
            value,
        ),
{
    lemma_patch_settles(content, group, key, value);
    lemma_settled_patch(patched_lines(lines(content), group, key, value), group, key, value);
}

/// A patch keeps every line that is not an assignment of its key in its
/// group's section, in order: each stays where it was, or one line further
/// down where the new assignment was inserted before it.
pub proof fn lemma_patch_keeps_other_lines(ls: Seq<Seq<char>>, group: Seq<char>, key: Seq<char>, value: Seq<char>)
    ensures
        ({
            let (ls2, start) = with_header(ls, group);
            let end = section_end(ls2, start);
            let out = patched_lines(ls, group, key, value);
            let inserted = !key_in_range(ls2, start, end, key);
            forall|j: int|
                0 <= j < ls.len() && !(start <= j < end && key_part(ls[j]) == Some(key)) ==> out[if inserted && j >= end {
                    j + 1
                } else {
                    j
                }] == #[trigger] ls[j]
        }),
{
    let (ls2, start) = with_header(ls, group);
    let end = section_end(ls2, start);
    lemma_section_end_bounds(ls2, start);
    assert forall|j: int| 0 <= j < ls.len() implies ls2[j] == ls[j] by {}
}

proof fn lemma_section_end_bounds(ls: Seq<Seq<char>>, from: int)
    ensures
        from < 0 || from > ls.len() ==> section_end(ls, from) == ls.len(),
        0 <= from <= ls.len() ==> from <= section_end(ls, from) <= ls.len(),
    decreases ls.len() - from,
{
    if 0 <= from < ls.len() {
        lemma_section_end_bounds(ls, from + 1);
    }
}

proof fn lemma_free_of_trim_start(s: Seq<char>, c: char)
    requires
        text::free_of(text::trim_start(s), c),
        !text::is_ws(c),
    ensures
        text::free_of(s, c),
    decreases s.len(),
{
    if s.len() > 0 && text::is_ws(s[0]) {
        lemma_free_of_trim_start(s.drop_first(), c);
        assert forall|j: int| 0 <= j < s.len() implies #[trigger] s[j] != c by {
            if j > 0 {
                assert(s[j] == s.drop_first()[j - 1]);
            }
        }
    }
}

proof fn lemma_free_of_trim_end(s: Seq<char>, c: char)
    requires
        text::free_of(text::trim_end(s), c),
        !text::is_ws(c),
    ensures
        text::free_of(s, c),
    decreases s.len(),
{
    if s.len() > 0 && text::is_ws(s.last()) {
        lemma_free_of_trim_end(s.drop_last(), c);
        assert forall|j: int| 0 <= j < s.len() implies #[trigger] s[j] != c by {
            if j < s.len() - 1 {
                assert(s[j] == s.drop_last()[j]);
            }
        }
    }
}

/// A line whose trimmed text holds no `=` is no assignment.
proof fn lemma_no_key_part(x: Seq<char>)
    requires
        text::free_of(trim(x), '='),
    ensures
        key_part(x) is None,
{
    lemma_free_of_trim_end(text::trim_start(x), '=');
    lemma_free_of_trim_start(x, '=');
    assert forall|j: int| 0 <= j <= x.len() implies !text::occurs_at(x, seq!['='], j) by {
        if text::occurs_at(x, seq!['='], j) {
            assert(x.subrange(j, j + 1)[0] == x[j]);
        }
    }
    text::lemma_find_none(x, seq!['=']);
}

/// A patch keeps a line that makes a group immutable (where that group's
/// name holds no `=`): the file it writes refuses that group too.
proof fn lemma_immutable_kept(content: Seq<char>, group: Seq<char>, key: Seq<char>, value: Seq<char>, other: Seq<char>)
    requires
        patch_one(content, group, key, value) is Ok,
        plain_patch(group, key, value),
        group_immutable(lines(content), other),
        text::free_of(other, '='),
    ensures
        group_immutable(lines(patch_one(content, group, key, value)->Ok_0), other),
{
    let ls = lines(content);
    let hl = header_line(group);
    let kv = kv_line(key, value);
    lemma_kv_line(key, value, group);
    text::lemma_lines_free(content);
    let i = choose|i: int| 0 <= i < ls.len() && immutable_group_line(#[trigger] ls[i], other);
    let x = ls[i];
    assert(text::free_of(trim(x), '=')) by {
        let full = header_line(other) + immutable_marker();
        assert forall|j: int| 0 <= j < full.len() implies #[trigger] full[j] != '=' by {
            if 1 <= j < other.len() + 1 {
                assert(full[j] == other[j - 1]);
            }
        }
    }
    lemma_no_key_part(x);
    let (ls2, start) = with_header(ls, group);
    lemma_header_index_props(ls, 0, hl);
    lemma_section_end_props(ls2, start);
    let end = section_end(ls2, start);
    let found = key_in_range(ls2, start, end, key);
    let out = patched_lines(ls, group, key, value);
    lemma_patch_keeps_other_lines(ls, group, key, value);
    let at = if !found && i >= end {
        i + 1
    } else {
        i
    };
    assert(out[at] == x);
    assert forall|j: int| 0 <= j < out.len() implies #[trigger] out[j] == (if j < end {
        if start <= j && key_part(ls2[j]) == Some(key) {
            kv
        } else {
            ls2[j]
        }
    } else if !found && j == end {
        kv
    } else if found {
        ls2[j]
    } else {
        ls2[j - 1]
    }) by {}
    assert(text::none_hold(out, '\n')) by {
        assert forall|a: int, b: int| 0 <= a < out.len() && 0 <= b < out[a].len() implies #[trigger] out[a][b]
            != '\n' by {
            if out[a] != kv {
                let m = if a < end || found {
                    a
                } else {
                    a - 1
                };
                assert(out[a] == ls2[m]);
                if m < ls.len() {
                    assert(ls2[m] == ls[m]);
                    assert(ls[m][b] != '\n');
                } else {
                    assert(ls2[m] == hl);
                    assert(line_ok(hl, group));
                }
            } else {
                assert(line_ok(kv, group));
            }
        }
    }
    text::lemma_lines_unlines(out);
    let ls1 = lines(unlines(out));
    assert(ls1 == text::strip_cr_all(out));
    assert(ls1[at] == text::strip_cr(x));
    text::lemma_trim_strip_cr(x);
    assert(immutable_group_line(ls1[at], other));
}

/// A list of patches is refused where any of them names a group that the
/// file marks immutable (with no `=` in its name): the patches before it
/// keep the mark.
pub proof fn lemma_immutable_group_refuses(
    content: Seq<char>,
    ps: Seq<(Seq<char>, Seq<char>, Seq<char>)>,
    m: int,
)
    requires
        0 <= m < ps.len(),
        group_immutable(lines(content), ps[m].0),
        text::free_of(ps[m].0, '='),
        forall|i: int| 0 <= i < ps.len() ==> plain_patch(#[trigger] ps[i].0, ps[i].1, ps[i].2),
    ensures
        patch_all(content, ps) is Err,
    decreases m,
{
    if m > 0 {
        assert(plain_patch(ps[0].0, ps[0].1, ps[0].2));
        match patch_one(content, ps[0].0, ps[0].1, ps[0].2) {
            Ok(next) => {
                lemma_immutable_kept(content, ps[0].0, ps[0].1, ps[0].2, ps[m].0);
                let rest = ps.drop_first();
                assert(rest[m - 1] == ps[m]);
                assert forall|i: int| 0 <= i < rest.len() implies plain_patch(#[trigger] rest[i].0, rest[i].1, rest[i].2) by {
                    assert(rest[i] == ps[i + 1]);
                }
                lemma_immutable_group_refuses(next, rest, m - 1);
            },
            Err(_) => {},
        }
    }
}

// ── A list of patches applied twice ──────────────────────────────────────────

/// Lines that a rewrite keeps as they are: no line break inside a line and no
/// line ending with a carriage return.
pub open spec fn clean_lines(ls: Seq<Seq<char>>) -> bool {
    &&& text::none_hold(ls, '\n')
    &&& no_cr_ends(ls)
}

/// The lines already hold what the patch writes: the group exists and is not
/// immutable, its section assigns the key, every assignment of the key there
/// is the patch's, and the key is not marked immutable there.
pub open spec fn settled(ls: Seq<Seq<char>>, group: Seq<char>, key: Seq<char>, value: Seq<char>) -> bool {
    let h = header_index(ls, 0, header_line(group));
    let end = section_end(ls, h + 1);
    &&& h < ls.len()
    &&& key_in_range(ls, h + 1, end, key)
    &&& forall|j: int| h + 1 <= j < end && key_part(#[trigger] ls[j]) == Some(key) ==> ls[j] == kv_line(key, value)
    &&& !group_immutable(ls, group)
    &&& !key_in_range(ls, h + 1, end, key + immutable_marker())
}

/// Where each line of a patch's result comes from.
proof fn lemma_patched_shape(ls: Seq<Seq<char>>, group: Seq<char>, key: Seq<char>, value: Seq<char>)
    ensures
        ({
            let (ls2, start) = with_header(ls, group);
            let end = section_end(ls2, start);
            let found = key_in_range(ls2, start, end, key);
            let out = patched_lines(ls, group, key, value);
            &&& 1 <= start <= end <= ls2.len()
            &&& ls2.len() == ls.len() || (ls2.len() == ls.len() + 1 && ls2[ls.len() as int] == header_line(group)
                && start == ls2.len())
            &&& forall|j: int| 0 <= j < ls.len() ==> ls2[j] == #[trigger] ls[j]
            &&& start - 1 < ls.len() ==> start - 1 == header_index(ls, 0, header_line(group))
            &&& start - 1 >= ls.len() ==> header_index(ls, 0, header_line(group)) == ls.len()
            &&& out.len() == ls2.len() + (if found {
                0int
            } else {
                1int
            })
            &&& forall|j: int| 0 <= j < out.len() ==> #[trigger] out[j] == (if j < end {
                if start <= j && key_part(ls2[j]) == Some(key) {
                    kv_line(key, value)
                } else {
                    ls2[j]
                }
            } else if !found && j == end {
                kv_line(key, value)
            } else if found {
                ls2[j]
            } else {
                ls2[j - 1]
            })
        }),
{
    let hl = header_line(group);
    lemma_header_index_props(ls, 0, hl);
    let (ls2, start) = with_header(ls, group);
    lemma_section_end_props(ls2, start);
}

/// Settled lines are left as they are by the patch.
proof fn lemma_settled_patch(ls: Seq<Seq<char>>, group: Seq<char>, key: Seq<char>, value: Seq<char>)
    requires
        clean_lines(ls),
        settled(ls, group, key, value),
    ensures
        lines(unlines(ls)) == ls,
        patch_one(unlines(ls), group, key, value) == Ok::<Seq<char>, Seq<char>>(unlines(ls)),
{
    text::lemma_lines_unlines(ls);
    assert(text::strip_cr_all(ls) =~= ls) by {
        assert forall|i: int| 0 <= i < ls.len() implies text::strip_cr(#[trigger] ls[i]) == ls[i] by {
            assert(!(ls[i].len() > 0 && ls[i].last() == '\r'));
        }
    }
    let hl = header_line(group);
    lemma_header_index_props(ls, 0, hl);
    let h = header_index(ls, 0, hl);
    assert(with_header(ls, group) == (ls, h + 1));
    let end = section_end(ls, h + 1);
    assert(replace_key_lines(ls, h + 1, end, key, value) =~= ls);
    assert(patched_lines(ls, group, key, value) == ls);
}

/// Where a line of `ls` is after a patch whose section ends at `end`: one
/// further down past an inserted assignment.
pub open spec fn shifted(j: int, end: int, found: bool) -> int {
    if j < end || found {
        j
    } else {
        j + 1
    }
}

/// Where a patch's section starts, where it ends, and whether it assigns the
/// key there.
pub open spec fn patch_start(ls: Seq<Seq<char>>, group: Seq<char>) -> int {
    with_header(ls, group).1
}

pub open spec fn patch_end(ls: Seq<Seq<char>>, group: Seq<char>) -> int {
    section_end(with_header(ls, group).0, with_header(ls, group).1)
}

pub open spec fn patch_found(ls: Seq<Seq<char>>, group: Seq<char>, key: Seq<char>) -> bool {
    key_in_range(with_header(ls, group).0, patch_start(ls, group), patch_end(ls, group), key)
}

/// Each line of a patch's result: a line of the input (moved past an
/// inserted assignment), the assignment, or the added group header.
proof fn lemma_patched_lines_map(ls: Seq<Seq<char>>, group: Seq<char>, key: Seq<char>, value: Seq<char>)
    ensures
        ({
            let out = patched_lines(ls, group, key, value);
            let sq = patch_start(ls, group);
            let eq = patch_end(ls, group);
            let found = patch_found(ls, group, key);
            let n = ls.len() as int;
            &&& 1 <= sq <= eq
            &&& sq - 1 < n ==> sq - 1 == header_index(ls, 0, header_line(group))
            &&& sq - 1 >= n ==> sq == n + 1 && eq == n + 1 && !found && out.len() == n + 2 && out[n] == header_line(
                group,
            )
            &&& sq - 1 < n ==> eq <= n && out.len() == n + (if found {
                0int
            } else {
                1int
            })
            &&& forall|j: int| 0 <= j < n ==> shifted(j, eq, found) < out.len() && #[trigger] out[shifted(j, eq, found)] == (
            if sq <= j < eq && key_part(ls[j]) == Some(key) {
                kv_line(key, value)
            } else {
                ls[j]
            })
            &&& !found ==> out[eq] == kv_line(key, value)
            &&& forall|m: int| 0 <= m < out.len() ==> (#[trigger] out[m] == kv_line(key, value)) || (n <= m && out[m]
                == header_line(group)) || (exists|j: int| 0 <= j < n && m == shifted(j, eq, found) && out[m] == ls[j])
            &&& forall|j: int| sq <= j < eq && j < n ==> !text::starts_with(trim(#[trigger] ls[j]), seq!['['])
        }),
{
    lemma_patched_shape(ls, group, key, value);
    let (ls2, sq) = with_header(ls, group);
    lemma_section_end_props(ls2, sq);
    let eq = section_end(ls2, sq);
    let found = key_in_range(ls2, sq, eq, key);
    let out = patched_lines(ls, group, key, value);
    let n = ls.len() as int;
    assert forall|j: int| sq <= j < eq && j < n implies !text::starts_with(trim(#[trigger] ls[j]), seq!['[']) by {
        assert(ls2[j] == ls[j]);
    }
    assert forall|j: int| 0 <= j < n implies shifted(j, eq, found) < out.len() && #[trigger] out[shifted(j, eq, found)]
        == (if sq <= j < eq && key_part(ls[j]) == Some(key) {
        kv_line(key, value)
    } else {
        ls[j]
    }) by {
        assert(ls2[j] == ls[j]);
    }
    assert forall|m: int| 0 <= m < out.len() implies (#[trigger] out[m] == kv_line(key, value)) || (n <= m && out[m]
        == header_line(group)) || (exists|j: int| 0 <= j < n && m == shifted(j, eq, found) && out[m] == ls[j]) by {
        if !(out[m] == kv_line(key, value)) {
            let j = if m < eq || found {
                m
            } else {
                m - 1
            };
            if j < n {
                assert(ls2[j] == ls[j]);
                assert(m == shifted(j, eq, found));
            }
        }
    }
}

/// The sections of two different groups do not overlap: one ends before
/// the other's header.
proof fn lemma_sections_apart(ls: Seq<Seq<char>>, gp: Seq<char>, gq: Seq<char>, k: Seq<char>, v: Seq<char>)
    requires
        gp != gq,
        header_index(ls, 0, header_line(gp)) < ls.len(),
    ensures
        ({
            let hp = header_index(ls, 0, header_line(gp));
            let ep = section_end(ls, hp + 1);
            patch_end(ls, gq) <= hp || ep < patch_start(ls, gq)
        }),
{
    let hlp = header_line(gp);
    let hlq = header_line(gq);
    lemma_header_index_props(ls, 0, hlp);
    lemma_header_index_props(ls, 0, hlq);
    let hp = header_index(ls, 0, hlp);
    lemma_section_end_props(ls, hp + 1);
    lemma_patched_lines_map(ls, gq, k, v);
    let sq = patch_start(ls, gq);
    let n = ls.len() as int;
    assert(trim(hlp) == hlp && text::starts_with(trim(hlp), seq!['['])) by {
        assert(hlp[0] == '[');
        assert(hlp.last() == ']');
        assert(text::trim_start(hlp) == hlp);
        assert(text::trim_end(hlp) == hlp);
        assert(hlp.subrange(0, 1) =~= seq!['[']);
    }
    assert(trim(hlq) == hlq && text::starts_with(trim(hlq), seq!['['])) by {
        assert(hlq[0] == '[');
        assert(hlq.last() == ']');
        assert(text::trim_start(hlq) == hlq);
        assert(text::trim_end(hlq) == hlq);
        assert(hlq.subrange(0, 1) =~= seq!['[']);
    }
    if sq - 1 < n {
        let hq = sq - 1;
        assert(trim(ls[hq]) == hlq);
        if hq == hp {
            assert(gq =~= hlq.subrange(1, hlq.len() - 1));
            assert(gp =~= hlp.subrange(1, hlp.len() - 1));
        } else if hq < hp {
            if hp < patch_end(ls, gq) {
                assert(!text::starts_with(trim(ls[hp]), seq!['[']));
            }
        } else {
            if hq < section_end(ls, hp + 1) {
                assert(!text::starts_with(trim(ls[hq]), seq!['[']));
            }
        }
    }
}

/// A second patch, to another key or group, keeps what a first one settled.
proof fn lemma_settled_kept(
    ls: Seq<Seq<char>>,
    gp: Seq<char>,
    kp: Seq<char>,
    vp: Seq<char>,
    gq: Seq<char>,
    kq: Seq<char>,
    vq: Seq<char>,
)
    requires
        clean_lines(ls),
        settled(ls, gp, kp, vp),
        plain_patch(gp, kp, vp),
        plain_patch(gq, kq, vq),
        gp != gq || kp != kq,
        gp == gq ==> kq != kp + immutable_marker(),
        header_line(gq) != header_line(gp) + immutable_marker(),
    ensures
        clean_lines(patched_lines(ls, gq, kq, vq)),
        settled(patched_lines(ls, gq, kq, vq), gp, kp, vp),
{
    let hlp = header_line(gp);
    let hlq = header_line(gq);
    let kvp = kv_line(kp, vp);
    let kvq = kv_line(kq, vq);
    lemma_kv_line(kp, vp, gp);
    lemma_kv_line(kq, vq, gq);
    lemma_header_index_props(ls, 0, hlp);
    let hp = header_index(ls, 0, hlp);
    let sp = hp + 1;
    lemma_section_end_props(ls, sp);
    let ep = section_end(ls, sp);
    lemma_patched_lines_map(ls, gq, kq, vq);
    let sq = patch_start(ls, gq);
    let eq = patch_end(ls, gq);
    let found = patch_found(ls, gq, kq);
    let out = patched_lines(ls, gq, kq, vq);
    let n = ls.len() as int;
    if gp != gq {
        lemma_sections_apart(ls, gp, gq, kq, vq);
    } else {
        lemma_header_index_props(ls, 0, hlq);
    }
    lemma_kept_clean(ls, gq, kq, vq);
    // The header of the first patch's group.
    let hp2 = shifted(hp, eq, found);
    assert(out[hp2] == ls[hp]) by {
        if sq <= hp < eq {
            assert(!text::starts_with(trim(ls[hp]), seq!['[']));
        }
    }
    assert forall|m: int| 0 <= m < hp2 implies trim(#[trigger] out[m]) != hlp by {
        if out[m] == kvq {
        } else if n <= m && out[m] == hlq {
        } else {
            let j = choose|j: int| 0 <= j < n && m == shifted(j, eq, found) && out[m] == ls[j];
            assert(j < hp);
        }
    }
    lemma_header_index_at(out, 0, hlp, hp2);
    lemma_settled_section(ls, gp, kp, vp, gq, kq, vq);
}

/// A patch keeps the lines clean.
proof fn lemma_kept_clean(ls: Seq<Seq<char>>, gq: Seq<char>, kq: Seq<char>, vq: Seq<char>)
    requires
        clean_lines(ls),
        plain_patch(gq, kq, vq),
    ensures
        clean_lines(patched_lines(ls, gq, kq, vq)),
{
    let hlq = header_line(gq);
    let kvq = kv_line(kq, vq);
    lemma_kv_line(kq, vq, gq);
    lemma_patched_lines_map(ls, gq, kq, vq);
    let eq = patch_end(ls, gq);
    let found = patch_found(ls, gq, kq);
    let out = patched_lines(ls, gq, kq, vq);
    let n = ls.len() as int;
    assert(text::none_hold(out, '\n')) by {
        assert forall|a: int, b: int| 0 <= a < out.len() && 0 <= b < out[a].len() implies #[trigger] out[a][b] != '\n' by {
            if out[a] == kvq {
                assert(line_ok(kvq, gq));
            } else if n <= a && out[a] == hlq {
                assert(line_ok(hlq, gq));
            } else {
                let j = choose|j: int| 0 <= j < n && a == shifted(j, eq, found) && out[a] == ls[j];
                assert(ls[j][b] != '\n');
            }
        }
    }
    assert(no_cr_ends(out)) by {
        assert forall|a: int| 0 <= a < out.len() implies !(#[trigger] out[a].len() > 0 && out[a].last() == '\r') by {
            if out[a] == kvq {
                assert(line_ok(kvq, gq));
            } else if n <= a && out[a] == hlq {
                assert(line_ok(hlq, gq));
            } else {
                let j = choose|j: int| 0 <= j < n && a == shifted(j, eq, found) && out[a] == ls[j];
                assert(!(ls[j].len() > 0 && ls[j].last() == '\r'));
            }
        }
    }
}

/// The settled section of the first patch after the second: it ends where
/// it did (moved past an inserted line), and its assignments and marks are
/// what they were.
#[verifier::rlimit(40)]
proof fn lemma_settled_section(
    ls: Seq<Seq<char>>,
    gp: Seq<char>,
    kp: Seq<char>,
    vp: Seq<char>,
    gq: Seq<char>,
    kq: Seq<char>,
    vq: Seq<char>,
)
    requires
        clean_lines(ls),
        settled(ls, gp, kp, vp),
        plain_patch(gp, kp, vp),
        plain_patch(gq, kq, vq),
        gp != gq || kp != kq,
        gp == gq ==> kq != kp + immutable_marker(),
        header_line(gq) != header_line(gp) + immutable_marker(),
        header_index(patched_lines(ls, gq, kq, vq), 0, header_line(gp)) == shifted(
            header_index(ls, 0, header_line(gp)),
            patch_end(ls, gq),
            patch_found(ls, gq, kq),
        ),
        header_index(patched_lines(ls, gq, kq, vq), 0, header_line(gp)) < patched_lines(ls, gq, kq, vq).len(),
    ensures
        settled(patched_lines(ls, gq, kq, vq), gp, kp, vp),
{
    let hlp = header_line(gp);
    let hlq = header_line(gq);
    let kvp = kv_line(kp, vp);
    let kvq = kv_line(kq, vq);
    lemma_kv_line(kp, vp, gp);
    lemma_kv_line(kq, vq, gq);
    lemma_header_index_props(ls, 0, hlp);
    let hp = header_index(ls, 0, hlp);
    let sp = hp + 1;
    lemma_section_end_props(ls, sp);
    let ep = section_end(ls, sp);
    lemma_patched_lines_map(ls, gq, kq, vq);
    let sq = patch_start(ls, gq);
    let eq = patch_end(ls, gq);
    let found = patch_found(ls, gq, kq);
    let out = patched_lines(ls, gq, kq, vq);
    let n = ls.len() as int;
    let same = gp == gq;
    if !same {
        lemma_sections_apart(ls, gp, gq, kq, vq);
    }
    let hp2 = shifted(hp, eq, found);
    let ep2 = if ep < n {
        shifted(ep, eq, found)
    } else if ep < eq || found {
        ep
    } else {
        ep + 1
    };
    // Lines of the result inside the first patch's section come from it, or
    // are the second patch's assignment in the same group.
    assert forall|m: int| hp2 + 1 <= m < ep2 implies (same && #[trigger] out[m] == kvq) || (exists|j: int|
        sp <= j < ep && m == shifted(j, eq, found) && out[m] == ls[j] && !(sq <= j < eq && key_part(ls[j]) == Some(kq))) by {
        if !found && m == eq {
            assert(out[m] == kvq);
            if !same {
                assert(eq <= hp || ep < sq);
            }
        } else {
            let j = if m < eq || found {
                m
            } else {
                m - 1
            };
            assert(m == shifted(j, eq, found));
            assert(sp <= j < ep);
            if sq <= j < eq && key_part(ls[j]) == Some(kq) {
                assert(out[m] == kvq);
                if !same {
                    assert(eq <= hp || ep < sq);
                }
            } else {
                assert(out[m] == ls[j]);
            }
        }
    }
    assert(ep2 <= out.len());
    if ep2 < out.len() {
        if ep < n {
            assert(out[ep2] == ls[ep]) by {
                if sq <= ep < eq {
                    assert(!text::starts_with(trim(ls[ep]), seq!['[']));
                }
            }
        } else {
            assert(out[ep2] == hlq);
            assert(text::starts_with(trim(hlq), seq!['[']));
        }
    }
    assert forall|m: int| hp2 + 1 <= m < ep2 implies !text::starts_with(trim(#[trigger] out[m]), seq!['[']) by {
        if same && out[m] == kvq {
        } else {
            let j = choose|j: int|
                sp <= j < ep && m == shifted(j, eq, found) && out[m] == ls[j] && !(sq <= j < eq && key_part(ls[j]) == Some(
                    kq,
                ));
        }
    }
    lemma_section_end_at(out, hp2 + 1, ep2);
    let j0 = choose|j: int| sp <= j < ep && key_part(#[trigger] ls[j]) == Some(kp);
    assert(out[shifted(j0, eq, found)] == ls[j0]) by {
        if sq <= j0 < eq && key_part(ls[j0]) == Some(kq) {
            if !same {
                assert(eq <= hp || ep < sq);
            }
        }
    }
    assert(key_in_range(out, hp2 + 1, ep2, kp));
    assert forall|m: int| hp2 + 1 <= m < ep2 && key_part(#[trigger] out[m]) == Some(kp) implies out[m] == kvp by {
        if same && out[m] == kvq {
        } else {
            let j = choose|j: int|
                sp <= j < ep && m == shifted(j, eq, found) && out[m] == ls[j] && !(sq <= j < eq && key_part(ls[j]) == Some(
                    kq,
                ));
        }
    }
    assert(!key_in_range(out, hp2 + 1, ep2, kp + immutable_marker())) by {
        if key_in_range(out, hp2 + 1, ep2, kp + immutable_marker()) {
            let m = choose|m: int| hp2 + 1 <= m < ep2 && key_part(#[trigger] out[m]) == Some(kp + immutable_marker());
            if same && out[m] == kvq {
            } else {
                let j = choose|j: int|
                    sp <= j < ep && m == shifted(j, eq, found) && out[m] == ls[j] && !(sq <= j < eq && key_part(ls[j])
                        == Some(kq));
                assert(key_in_range(ls, sp, ep, kp + immutable_marker()));
            }
        }
    }
    assert(!group_immutable(out, gp)) by {
        if group_immutable(out, gp) {
            let m = choose|m: int| 0 <= m < out.len() && immutable_group_line(#[trigger] out[m], gp);
            if out[m] == kvq {
                let t = trim(kvq);
                if t == hlp + immutable_marker() {
                    assert(t.subrange(0, 1) =~= seq![(hlp + immutable_marker())[0]]);
                    assert((hlp + immutable_marker())[0] == '[');
                } else if t == immutable_marker() {
                    assert(t.subrange(0, 1) =~= seq!['[']);
                }
                assert(false);
            } else if n <= m && out[m] == hlq {
                assert(trim(hlq) == hlq);
                if hlq == immutable_marker() {
                    assert(gq =~= seq!['$', 'i']) by {
                        assert(gq.len() == 2);
                        assert(gq[0] == hlq[1]);
                        assert(gq[1] == hlq[2]);
                    }
                }
                assert(false);
            } else {
                let j = choose|j: int| 0 <= j < n && m == shifted(j, eq, found) && out[m] == ls[j];
                assert(immutable_group_line(ls[j], gp));
                assert(group_immutable(ls, gp));
            }
        }
    }
}

/// Patches that can be applied again: each is plain, no two set the same key
/// of the same group, and none marks another's key or group immutable
/// (`key[$i]` in the same group, or a group named `group][$i`).
pub open spec fn patches_compatible(ps: Seq<(Seq<char>, Seq<char>, Seq<char>)>) -> bool {
    &&& forall|i: int| 0 <= i < ps.len() ==> plain_patch(#[trigger] ps[i].0, ps[i].1, ps[i].2)
    &&& forall|i: int, j: int|
        0 <= i < ps.len() && 0 <= j < ps.len() && i != j ==> {
            &&& ((#[trigger] ps[i]).0 != (#[trigger] ps[j]).0 || ps[i].1 != ps[j].1)
            &&& (ps[i].0 == ps[j].0 ==> ps[j].1 != ps[i].1 + immutable_marker())
            &&& header_line(ps[j].0) != header_line(ps[i].0) + immutable_marker()
        }
}

/// The first pass: the patches settle one after the other, and what earlier
/// patches settled stays settled.
proof fn lemma_pass(
    content: Seq<char>,
    done: Seq<(Seq<char>, Seq<char>, Seq<char>)>,
    ps: Seq<(Seq<char>, Seq<char>, Seq<char>)>,
)
    requires
        no_cr_ends(lines(content)),
        patch_all(content, ps) is Ok,
        ps.len() > 0,
        forall|d: int| 0 <= d < done.len() ==> settled(lines(content), #[trigger] done[d].0, done[d].1, done[d].2),
        patches_compatible(done + ps),
    ensures
        ({
            let r = patch_all(content, ps)->Ok_0;
            &&& clean_lines(lines(r))
            &&& lines(r).len() >= 1
            &&& unlines(lines(r)) == r
            &&& forall|d: int| 0 <= d < done.len() + ps.len() ==> settled(lines(r), #[trigger] (done + ps)[d].0, (done + ps)[d].1, (done + ps)[d].2)
        }),
    decreases ps.len(),
{
    let all = done + ps;
    let p0 = ps[0];
    assert(all[done.len() as int] == p0);
    assert(plain_patch(p0.0, p0.1, p0.2));
    assert(patch_one(content, p0.0, p0.1, p0.2) is Ok);
    lemma_patch_settles(content, p0.0, p0.1, p0.2);
    let ls = lines(content);
    let ls1 = patched_lines(ls, p0.0, p0.1, p0.2);
    let c1 = unlines(ls1);
    text::lemma_lines_free(content);
    assert forall|d: int| 0 <= d < done.len() implies settled(ls1, #[trigger] done[d].0, done[d].1, done[d].2) by {
        assert(all[d] == done[d]);
        assert(plain_patch(all[d].0, all[d].1, all[d].2));
        assert(d != done.len());
        lemma_settled_kept(ls, done[d].0, done[d].1, done[d].2, p0.0, p0.1, p0.2);
    }
    let done1 = done.push(p0);
    let ps1 = ps.drop_first();
    assert(done1 + ps1 =~= all);
    assert forall|d: int| 0 <= d < done1.len() implies settled(lines(c1), #[trigger] done1[d].0, done1[d].1, done1[d].2) by {
        if d < done.len() {
            assert(done1[d] == done[d]);
        } else {
            assert(done1[d] == p0);
        }
    }
    assert(patch_all(content, ps) == patch_all(c1, ps1));
    if ps1.len() > 0 {
        lemma_pass(c1, done1, ps1);
    } else {
        assert(patch_all(c1, ps1) == Ok::<Seq<char>, Seq<char>>(c1));
        assert forall|d: int| 0 <= d < done.len() + ps.len() implies settled(lines(c1), #[trigger] all[d].0, all[d].1, all[d].2) by {
            assert(all[d] == done1[d]);
        }
    }
}

/// Settled patches, applied to the text of their lines, leave it as it is.
proof fn lemma_settled_all(ls: Seq<Seq<char>>, ps: Seq<(Seq<char>, Seq<char>, Seq<char>)>)
    requires
        clean_lines(ls),
        forall|d: int| 0 <= d < ps.len() ==> settled(ls, #[trigger] ps[d].0, ps[d].1, ps[d].2),
    ensures
        patch_all(unlines(ls), ps) == Ok::<Seq<char>, Seq<char>>(unlines(ls)),
    decreases ps.len(),
{
    if ps.len() > 0 {
        assert(settled(ls, ps[0].0, ps[0].1, ps[0].2));
        lemma_settled_patch(ls, ps[0].0, ps[0].1, ps[0].2);
        let rest = ps.drop_first();
        assert forall|d: int| 0 <= d < rest.len() implies settled(ls, #[trigger] rest[d].0, rest[d].1, rest[d].2) by {
            assert(rest[d] == ps[d + 1]);
        }
        lemma_settled_all(ls, rest);
    }
}

/// A list of patches applied a second time changes nothing, wherever the
/// first run succeeded on text with no line ending in a carriage return and
/// the patches are compatible.
pub proof fn lemma_patches_idempotent(content: Seq<char>, ps: Seq<(Seq<char>, Seq<char>, Seq<char>)>)
    requires
        patch_all(content, ps) is Ok,
        no_cr_ends(lines(content)),
        patches_compatible(ps),
    ensures
        patch_all(patch_all(content, ps)->Ok_0, ps) == patch_all(content, ps),
{
    if ps.len() > 0 {
        let empty = Seq::<(Seq<char>, Seq<char>, Seq<char>)>::empty();
        assert(empty + ps =~= ps);
        lemma_pass(content, empty, ps);
        let r = patch_all(content, ps)->Ok_0;
        assert forall|d: int| 0 <= d < ps.len() implies settled(lines(r), #[trigger] ps[d].0, ps[d].1, ps[d].2) by {
            assert((empty + ps)[d] == ps[d]);
        }
        lemma_settled_all(lines(r), ps);
    }
}

/// The group has its header, and its section marks the key immutable.
pub open spec fn key_marked(ls: Seq<Seq<char>>, group: Seq<char>, key: Seq<char>) -> bool {
    let h = header_index(ls, 0, header_line(group));
    &&& h < ls.len()
    &&& key_in_range(ls, h + 1, section_end(ls, h + 1), key + immutable_marker())
}

/// A patch to another key keeps a key's immutable mark in its section.
#[verifier::rlimit(40)]
proof fn lemma_marked_kept(
    ls: Seq<Seq<char>>,
    gp: Seq<char>,
    kp: Seq<char>,
    vp: Seq<char>,
    gq: Seq<char>,
    kq: Seq<char>,
    vq: Seq<char>,
)
    requires
        clean_lines(ls),
        key_marked(ls, gp, kp),
        plain_patch(gp, kp, vp),
        plain_patch(gq, kq, vq),
        gp == gq ==> kq != kp + immutable_marker(),
    ensures
        clean_lines(patched_lines(ls, gq, kq, vq)),
        key_marked(patched_lines(ls, gq, kq, vq), gp, kp),
{
    let hlp = header_line(gp);
    let hlq = header_line(gq);
    let kvq = kv_line(kq, vq);
    let marked = kp + immutable_marker();
    lemma_kv_line(kp, vp, gp);
    lemma_kv_line(kq, vq, gq);
    lemma_header_index_props(ls, 0, hlp);
    let hp = header_index(ls, 0, hlp);
    let sp = hp + 1;
    lemma_section_end_props(ls, sp);
    let ep = section_end(ls, sp);
    lemma_patched_lines_map(ls, gq, kq, vq);
    let sq = patch_start(ls, gq);
    let eq = patch_end(ls, gq);
    let found = patch_found(ls, gq, kq);
    let out = patched_lines(ls, gq, kq, vq);
    let n = ls.len() as int;
    let same = gp == gq;
    if !same {
        lemma_sections_apart(ls, gp, gq, kq, vq);
    } else {
        lemma_header_index_props(ls, 0, hlq);
    }
    lemma_kept_clean(ls, gq, kq, vq);
    let hp2 = shifted(hp, eq, found);
    assert(out[hp2] == ls[hp]) by {
        if sq <= hp < eq {
            assert(!text::starts_with(trim(ls[hp]), seq!['[']));
        }
    }
    assert forall|m: int| 0 <= m < hp2 implies trim(#[trigger] out[m]) != hlp by {
        if out[m] == kvq {
        } else if n <= m && out[m] == hlq {
        } else {
            let j = choose|j: int| 0 <= j < n && m == shifted(j, eq, found) && out[m] == ls[j];
            assert(j < hp);
        }
    }
    lemma_header_index_at(out, 0, hlp, hp2);
    let ep2 = if ep < n {
        shifted(ep, eq, found)
    } else if ep < eq || found {
        ep
    } else {
        ep + 1
    };
    assert forall|m: int| hp2 + 1 <= m < ep2 implies (same && #[trigger] out[m] == kvq) || (exists|j: int|
        sp <= j < ep && m == shifted(j, eq, found) && out[m] == ls[j]) by {
        if !found && m == eq {
            assert(out[m] == kvq);
            if !same {
                assert(eq <= hp || ep < sq);
            }
        } else {
            let j = if m < eq || found {
                m
            } else {
                m - 1
            };
            assert(m == shifted(j, eq, found));
            assert(sp <= j < ep);
            if sq <= j < eq && key_part(ls[j]) == Some(kq) {
                assert(out[m] == kvq);
                if !same {
                    assert(eq <= hp || ep < sq);
                }
            } else {
                assert(out[m] == ls[j]);
            }
        }
    }
    assert(ep2 <= out.len());
    if ep2 < out.len() {
        if ep < n {
            assert(out[ep2] == ls[ep]) by {
                if sq <= ep < eq {
                    assert(!text::starts_with(trim(ls[ep]), seq!['[']));
                }
            }
        } else {
            assert(out[ep2] == hlq);
        }
    }
    assert forall|m: int| hp2 + 1 <= m < ep2 implies !text::starts_with(trim(#[trigger] out[m]), seq!['[']) by {
        if same && out[m] == kvq {
        } else {
            let j = choose|j: int| sp <= j < ep && m == shifted(j, eq, found) && out[m] == ls[j];
        }
    }
    lemma_section_end_at(out, hp2 + 1, ep2);
    let j0 = choose|j: int| sp <= j < ep && key_part(#[trigger] ls[j]) == Some(marked);
    assert(out[shifted(j0, eq, found)] == ls[j0]) by {
        if sq <= j0 < eq && key_part(ls[j0]) == Some(kq) {
            if !same {
                assert(eq <= hp || ep < sq);
            }
        }
    }
    assert(key_in_range(out, hp2 + 1, ep2, marked));
}

/// A key marked immutable in its group's section refuses a list of patches
/// that sets it, whatever comes before it in the list (none of which sets
/// the marked key `key[$i]` itself in that group).
pub proof fn lemma_immutable_key_refuses(content: Seq<char>, ps: Seq<(Seq<char>, Seq<char>, Seq<char>)>, m: int)
    requires
        0 <= m < ps.len(),
        no_cr_ends(lines(content)),
        key_marked(lines(content), ps[m].0, ps[m].1),
        forall|i: int| 0 <= i < ps.len() ==> plain_patch(#[trigger] ps[i].0, ps[i].1, ps[i].2),
        forall|i: int| 0 <= i < m && (#[trigger] ps[i]).0 == ps[m].0 ==> ps[i].1 != ps[m].1 + immutable_marker(),
    ensures
        patch_all(content, ps) is Err,
    decreases m,
{
    let ls = lines(content);
    text::lemma_lines_free(content);
    let p0 = ps[0];
    assert(plain_patch(p0.0, p0.1, p0.2));
    if m == 0 {
        let hl = header_line(p0.0);
        lemma_header_index_props(ls, 0, hl);
        let h = header_index(ls, 0, hl);
        assert(with_header(ls, p0.0) == (ls, h + 1));
    } else {
        match patch_one(content, p0.0, p0.1, p0.2) {
            Ok(next) => {
                lemma_patch_settles(content, p0.0, p0.1, p0.2);
                assert(plain_patch(ps[m].0, ps[m].1, ps[m].2));
                lemma_marked_kept(ls, ps[m].0, ps[m].1, ps[m].2, p0.0, p0.1, p0.2);
                let rest = ps.drop_first();
                assert(rest[m - 1] == ps[m]);
                assert forall|i: int| 0 <= i < rest.len() implies plain_patch(#[trigger] rest[i].0, rest[i].1, rest[i].2) by {
                    assert(rest[i] == ps[i + 1]);
                }
                assert forall|i: int| 0 <= i < m - 1 && (#[trigger] rest[i]).0 == rest[m - 1].0 implies rest[i].1
                    != rest[m - 1].1 + immutable_marker() by {
                    assert(rest[i] == ps[i + 1]);
                }
                lemma_immutable_key_refuses(next, rest, m - 1);
            },
            Err(_) => {},
        }
    }
}

} // verus!
