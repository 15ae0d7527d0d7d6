//! File-system paths as the bytes that Unix gives them, with the meaning that `std::path` gives
//! them there.
//!
//! A path need not be UTF-8. These functions compute what `Path::file_name`, `Path::file_stem`,
//! `Path::extension`, `Path::is_absolute` and `Path::join` compute: byte `/` separates
//! components, repeated and trailing separators are ignored, `.` components are skipped, and a
//! last component of `..` has no file name.
use vstd::prelude::*;

verus! {

/// The byte `/`.
pub open spec fn slash() -> u8 {
    47
}

/// The byte `.`.
pub open spec fn dot() -> u8 {
    46
}

/// Number of trailing bytes of `s` equal to `b`.
pub open spec fn trail_eq(s: Seq<u8>, b: u8) -> nat
    decreases s.len(),
{
    if s.len() > 0 && s.last() == b {
        1 + trail_eq(s.drop_last(), b)
    } else {
        0
    }
}

/// Number of trailing bytes of `s` other than `b`.
pub open spec fn trail_ne(s: Seq<u8>, b: u8) -> nat
    decreases s.len(),
{
    if s.len() > 0 && s.last() != b {
        1 + trail_ne(s.drop_last(), b)
    } else {
        0
    }
}

pub proof fn lemma_trail_eq_bounds(s: Seq<u8>, b: u8)
    ensures
        trail_eq(s, b) <= s.len(),
        trail_eq(s, b) < s.len() ==> s[s.len() - trail_eq(s, b) - 1] != b,
    decreases s.len(),
{
    if s.len() > 0 && s.last() == b {
        lemma_trail_eq_bounds(s.drop_last(), b);
    }
}

pub proof fn lemma_trail_ne_bounds(s: Seq<u8>, b: u8)
    ensures
        trail_ne(s, b) <= s.len(),
        forall|k: int| s.len() - trail_ne(s, b) <= k < s.len() ==> #[trigger] s[k] != b,
        trail_ne(s, b) < s.len() ==> s[s.len() - trail_ne(s, b) - 1] == b,
    decreases s.len(),
{
    if s.len() > 0 && s.last() != b {
        lemma_trail_ne_bounds(s.drop_last(), b);
        assert forall|k: int| s.len() - trail_ne(s, b) <= k < s.len() implies #[trigger] s[k] != b by {
            if k < s.len() - 1 {
                assert(s[k] == s.drop_last()[k]);
            }
        }
    }
}

/// The trailing run of bytes other than `b` in `pre + suf` is all of `suf` when `suf` holds no
/// `b` and `pre` is empty or ends in `b`.
pub proof fn lemma_trail_ne_concat(pre: Seq<u8>, suf: Seq<u8>, b: u8)
    requires
        forall|i: int| 0 <= i < suf.len() ==> #[trigger] suf[i] != b,
        pre.len() == 0 || pre.last() == b,
    ensures
        trail_ne(pre + suf, b) == suf.len(),
    decreases suf.len(),
{
    if suf.len() == 0 {
        assert(pre + suf =~= pre);
    } else {
        assert((pre + suf).drop_last() =~= pre + suf.drop_last());
        assert((pre + suf).last() == suf[suf.len() - 1]);
        lemma_trail_ne_concat(pre, suf.drop_last(), b);
    }
}

/// `Path::file_name`.
pub open spec fn file_name_spec(p: Seq<u8>) -> Option<Seq<u8>>
    decreases p.len(),
{
    let t = p.take(p.len() - trail_eq(p, slash()));
    let n = trail_ne(t, slash());
    if t.len() == 0 || t.len() > p.len() || n == 0 || n > t.len() {
        None
    } else {
        let seg = t.skip(t.len() - n);
        if seg == seq![dot()] {
            file_name_spec(t.take(t.len() - n))
        } else if seg == seq![dot(), dot()] {
            None
        } else {
            Some(seg)
        }
    }
}

/// Splits a file name at its last dot as `Path::file_stem` and `Path::extension` do: a name
/// without a dot, or whose only dot leads, has no extension.
pub open spec fn split_last_dot(name: Seq<u8>) -> (Seq<u8>, Option<Seq<u8>>) {
    let n = trail_ne(name, dot());
    if n >= name.len() || n + 1 == name.len() {
        (name, None)
    } else {
        (name.take(name.len() - n - 1), Some(name.skip(name.len() - n)))
    }
}

/// `Path::file_stem`.
pub open spec fn file_stem_spec(p: Seq<u8>) -> Option<Seq<u8>> {
    match file_name_spec(p) {
        Some(name) => Some(split_last_dot(name).0),
        None => None,
    }
}

/// `Path::extension`.
pub open spec fn extension_spec(p: Seq<u8>) -> Option<Seq<u8>> {
    match file_name_spec(p) {
        Some(name) => split_last_dot(name).1,
        None => None,
    }
}

/// `Path::is_absolute`.
pub open spec fn is_absolute_spec(p: Seq<u8>) -> bool {
    p.len() > 0 && p[0] == slash()
}

/// `Path::join`.
pub open spec fn join_spec(base: Seq<u8>, name: Seq<u8>) -> Seq<u8> {
    if is_absolute_spec(name) {
        name
    } else if base.len() == 0 || base.last() == slash() {
        base + name
    } else {
        base + seq![slash()] + name
    }
}

/// Index just past the last byte before `to`, going back no further than `from`, that is (when
/// `equal`) or is not (otherwise) different from `b`.
fn back_over(v: &Vec<u8>, from: usize, to: usize, b: u8, equal: bool) -> (r: usize)
    requires
        from <= to <= v.len(),
    ensures
        from <= r <= to,
        equal ==> r == to - trail_eq(v@.subrange(from as int, to as int), b),
        !equal ==> r == to - trail_ne(v@.subrange(from as int, to as int), b),
{
    let ghost u = v@.subrange(from as int, to as int);
    let mut j = to;
    while j > from && ((v[j - 1] == b) == equal)
        invariant
            from <= j <= to <= v.len(),
            u == v@.subrange(from as int, to as int),
            equal ==> trail_eq(u, b) == (to - j) + trail_eq(v@.subrange(from as int, j as int), b),
            !equal ==> trail_ne(u, b) == (to - j) + trail_ne(v@.subrange(from as int, j as int), b),
        decreases j - from,
    {
        assert(v@.subrange(from as int, j as int).drop_last() =~= v@.subrange(
            from as int,
            j - 1,
        ));
        j = j - 1;
    }
    j
}

fn slice_bytes(v: &Vec<u8>, from: usize, to: usize) -> (r: Vec<u8>)
    requires
        from <= to <= v.len(),
    ensures
        r@ == v@.subrange(from as int, to as int),
{
    let mut r: Vec<u8> = Vec::new();
    let mut i = from;
    while i < to
        invariant
            from <= i <= to <= v.len(),
            r@ == v@.subrange(from as int, i as int),
        decreases to - i,
    {
        r.push(v[i]);
        i = i + 1;
        assert(r@ =~= v@.subrange(from as int, i as int));
    }
    r
}

/// `Path::file_name`.
pub fn file_name(v: &Vec<u8>) -> (r: Option<Vec<u8>>)
    ensures
        r matches Some(w) ==> file_name_spec(v@) == Some(w@),
        r is None ==> file_name_spec(v@) is None,
{
    let mut end = v.len();
    assert(v@.take(end as int) =~= v@);
    loop
        invariant
            end <= v.len(),
            file_name_spec(v@) == file_name_spec(v@.take(end as int)),
        decreases end,
    {
        let ghost p = v@.take(end as int);
        let t_end = back_over(v, 0, end, 47, true);
        proof {
            assert(v@.subrange(0, end as int) =~= p);
            lemma_trail_eq_bounds(p, slash());
            assert(p.take(p.len() - trail_eq(p, slash())) =~= v@.take(t_end as int));
        }
        if t_end == 0 {
            return None;
        }
        let start = back_over(v, 0, t_end, 47, false);
        let ghost t = v@.take(t_end as int);
        proof {
            assert(v@.subrange(0, t_end as int) =~= t);
            lemma_trail_ne_bounds(t, slash());
        }
        if start == t_end {
            return None;
        }
        let seg = slice_bytes(v, start, t_end);
        assert(t.skip(t.len() - (t_end - start)) =~= seg@);
        if seg.len() == 1 && seg[0] == 46 {
            assert(seg@ =~= seq![dot()]);
            assert(t.take(t.len() - (t_end - start)) =~= v@.take(start as int));
            end = start;
        } else if seg.len() == 2 && seg[0] == 46 && seg[1] == 46 {
            assert(seg@ =~= seq![dot(), dot()]);
            return None;
        } else {
            assert(seg@ != seq![dot()]);
            assert(seg@ != seq![dot(), dot()]);
            return Some(seg);
        }
    }
}

/// `split_last_dot` of `name`.
pub fn split_last_dot_bytes(name: &Vec<u8>) -> (r: (Vec<u8>, Option<Vec<u8>>))
    ensures
        r.0@ == split_last_dot(name@).0,
        r.1 matches Some(e) ==> split_last_dot(name@).1 == Some(e@),
        r.1 is None ==> split_last_dot(name@).1 is None,
{
    let len = name.len();
    let start = back_over(name, 0, len, 46, false);
    assert(name@.subrange(0, len as int) =~= name@);
    if start == 0 || start == 1 {
        (slice_bytes(name, 0, len), None)
    } else {
        let stem = slice_bytes(name, 0, start - 1);
        let ext = slice_bytes(name, start, len);
        (stem, Some(ext))
    }
}

/// `Path::file_stem`.
pub fn file_stem(path: &Vec<u8>) -> (r: Option<Vec<u8>>)
    ensures
        r matches Some(s) ==> file_stem_spec(path@) == Some(s@),
        r is None ==> file_stem_spec(path@) is None,
{
    match file_name(path) {
        Some(name) => {
            let (stem, _) = split_last_dot_bytes(&name);
            Some(stem)
        },
        None => None,
    }
}

/// `Path::extension`.
pub fn extension(path: &Vec<u8>) -> (r: Option<Vec<u8>>)
    ensures
        r matches Some(s) ==> extension_spec(path@) == Some(s@),
        r is None ==> extension_spec(path@) is None,
{
    match file_name(path) {
        Some(name) => {
            let (_, ext) = split_last_dot_bytes(&name);
            ext
        },
        None => None,
    }
}

/// `Path::is_absolute`.
pub fn is_absolute(path: &Vec<u8>) -> (b: bool)
    ensures
        b == is_absolute_spec(path@),
{
    path.len() > 0 && path[0] == 47
}

/// `Path::join`.
pub fn join_path(base: &Vec<u8>, name: &Vec<u8>) -> (r: Vec<u8>)
    ensures
        r@ == join_spec(base@, name@),
{
    if name.len() > 0 && name[0] == 47 {
        return name.clone();
    }
    let mut out = base.clone();
    if base.len() > 0 && base[base.len() - 1] != 47 {
        out.push(47);
    }
    let mut i: usize = 0;
    let ghost start = out@;
    while i < name.len()
        invariant
            i <= name.len(),
            out@ == start + name@.take(i as int),
        decreases name.len() - i,
    {
        out.push(name[i]);
        i = i + 1;
        assert(out@ =~= start + name@.take(i as int));
    }
    assert(name@.take(name.len() as int) =~= name@);
    proof {
        if base@.len() > 0 {
            assert(base@.last() == base@[base.len() - 1]);
        }
    }
    assert(out@ =~= join_spec(base@, name@));
    out
}

/// A name without separators, other than `.` and `..`, joined to a directory is the file name of
/// the result.
pub proof fn lemma_join_file_name(dir: Seq<u8>, name: Seq<u8>)
    requires
        name.len() > 0,
        forall|i: int| 0 <= i < name.len() ==> #[trigger] name[i] != slash(),
        name != seq![dot()],
        name != seq![dot(), dot()],
    ensures
        file_name_spec(join_spec(dir, name)) == Some(name),
{
    let p = join_spec(dir, name);
    let pre = if dir.len() == 0 || dir.last() == slash() {
        dir
    } else {
        dir + seq![slash()]
    };
    assert(name[0] != slash());
    assert(p =~= pre + name);
    assert(p.last() == name[name.len() - 1]);
    assert(trail_eq(p, slash()) == 0);
    assert(p.take(p.len() - trail_eq(p, slash())) =~= p);
    if pre.len() > 0 {
        assert(pre.last() == slash());
    }
    lemma_trail_ne_concat(pre, name, slash());
    assert(p.skip(p.len() - name.len()) =~= name);
}

/// A stem followed by a dot and an extension without dots splits there.
pub proof fn lemma_split_last_dot(stem: Seq<u8>, ext: Seq<u8>)
    requires
        stem.len() > 0,
        forall|i: int| 0 <= i < ext.len() ==> #[trigger] ext[i] != dot(),
    ensures
        split_last_dot(stem + seq![dot()] + ext) == (stem, Some(ext)),
{
    let name = stem + seq![dot()] + ext;
    assert((stem + seq![dot()]).last() == dot());
    lemma_trail_ne_concat(stem + seq![dot()], ext, dot());
    assert(name =~= (stem + seq![dot()]) + ext);
    assert(name.take(name.len() - ext.len() - 1) =~= stem);
    assert(name.skip(name.len() - ext.len()) =~= ext);
}

/// A file named by a stem, a dot and an extension, in any directory, has that stem and that
/// extension.
pub proof fn lemma_named_file(dir: Seq<u8>, stem: Seq<u8>, ext: Seq<u8>)
    requires
        stem.len() > 0,
        ext.len() > 0,
        forall|i: int| 0 <= i < stem.len() ==> #[trigger] stem[i] != slash(),
        forall|i: int| 0 <= i < ext.len() ==> #[trigger] ext[i] != slash() && ext[i] != dot(),
    ensures
        file_stem_spec(join_spec(dir, stem + seq![dot()] + ext)) == Some(stem),
        extension_spec(join_spec(dir, stem + seq![dot()] + ext)) == Some(ext),
{
    let name = stem + seq![dot()] + ext;
    assert forall|i: int| 0 <= i < name.len() implies #[trigger] name[i] != slash() by {
        if i < stem.len() {
            assert(name[i] == stem[i]);
        } else if i > stem.len() {
            assert(name[i] == ext[i - stem.len() - 1]);
        }
    }
    assert(name.len() >= 3);
    assert(name != seq![dot()]);
    assert(name != seq![dot(), dot()]);
    lemma_join_file_name(dir, name);
    lemma_split_last_dot(stem, ext);
}

/// Whether two byte strings are equal.
pub fn bytes_equal(a: &Vec<u8>, b: &Vec<u8>) -> (r: bool)
    ensures
        r == (a@ == b@),
{
    if a.len() != b.len() {
        return false;
    }
    let mut i: usize = 0;
    while i < a.len()
        invariant
            i <= a.len(),
            a.len() == b.len(),
            forall|k: int| 0 <= k < i ==> a@[k] == b@[k],
        decreases a.len() - i,
    {
        if a[i] != b[i] {
            return false;
        }
        i = i + 1;
    }
    assert(a@ =~= b@);
    true
}

/// A piece between separators names a component unless it is empty (repeated or trailing
/// separators) or `.`.
pub open spec fn kept_part(part: Seq<u8>) -> bool {
    part.len() > 0 && part != seq![dot()]
}

/// `parts`, with `part` after them where it names a component.
pub open spec fn add_part(parts: Seq<Seq<u8>>, part: Seq<u8>) -> Seq<Seq<u8>> {
    if kept_part(part) {
        parts.push(part)
    } else {
        parts
    }
}

/// `p` read from the left: the components met so far, and the piece being read.
pub open spec fn scan_parts(p: Seq<u8>) -> (Seq<Seq<u8>>, Seq<u8>)
    decreases p.len(),
{
    if p.len() == 0 {
        (seq![], seq![])
    } else {
        let (done, cur) = scan_parts(p.drop_last());
        if p.last() == slash() {
            (add_part(done, cur), seq![])
        } else {
            (done, cur.push(p.last()))
        }
    }
}

/// The named components of `p`, in order: the pieces between separators, without empty pieces
/// and `.`.
pub open spec fn path_parts(p: Seq<u8>) -> Seq<Seq<u8>> {
    add_part(scan_parts(p).0, scan_parts(p).1)
}

/// Whether `p` starts at the root.
pub open spec fn has_root(p: Seq<u8>) -> bool {
    p.len() > 0 && p[0] == slash()
}

/// Whether `p` is relative and starts with a `.` component, which `Path::components` keeps
/// (`CurDir`) at the start of a path.
pub open spec fn leading_cur_dir(p: Seq<u8>) -> bool {
    !has_root(p) && p.len() > 0 && p[0] == dot() && (p.len() == 1 || p[1] == slash())
}

/// `Path`'s `==`: the two paths have the same components (`Path::components`).
pub open spec fn same_path(a: Seq<u8>, b: Seq<u8>) -> bool {
    &&& has_root(a) == has_root(b)
    &&& leading_cur_dir(a) == leading_cur_dir(b)
    &&& path_parts(a) == path_parts(b)
}

fn push_part(done: &mut Vec<Vec<u8>>, part: Vec<u8>)
    ensures
        final(done)@.map_values(|x: Vec<u8>| x@) == add_part(
            old(done)@.map_values(|x: Vec<u8>| x@),
            part@,
        ),
{
    let ghost before = done@.map_values(|x: Vec<u8>| x@);
    let ghost pv = part@;
    if part.len() == 1 && part[0] == 46 {
        assert(pv =~= seq![dot()]);
    } else if part.len() > 0 {
        assert(pv != seq![dot()]);
        done.push(part);
        assert(done@.map_values(|x: Vec<u8>| x@) =~= before.push(pv));
    }
}

fn parts_of(p: &Vec<u8>) -> (r: Vec<Vec<u8>>)
    ensures
        r@.map_values(|x: Vec<u8>| x@) == path_parts(p@),
{
    let mut done: Vec<Vec<u8>> = Vec::new();
    let mut cur: Vec<u8> = Vec::new();
    let mut i: usize = 0;
    assert(done@.map_values(|x: Vec<u8>| x@) =~= Seq::<Seq<u8>>::empty());
    assert(p@.take(0) =~= Seq::<u8>::empty());
    while i < p.len()
        invariant
            i <= p.len(),
            (done@.map_values(|x: Vec<u8>| x@), cur@) == scan_parts(p@.take(i as int)),
        decreases p.len() - i,
    {
        assert(p@.take(i + 1).drop_last() =~= p@.take(i as int));
        assert(p@.take(i + 1).last() == p@[i as int]);
        let b = p[i];
        if b == 47 {
            push_part(&mut done, cur);
            cur = Vec::new();
            assert(cur@ =~= Seq::<u8>::empty());
        } else {
            cur.push(b);
        }
        i = i + 1;
    }
    assert(p@.take(p.len() as int) =~= p@);
    push_part(&mut done, cur);
    done
}

fn part_lists_equal(a: &Vec<Vec<u8>>, b: &Vec<Vec<u8>>) -> (r: bool)
    ensures
        r == (a@.map_values(|x: Vec<u8>| x@) == b@.map_values(|x: Vec<u8>| x@)),
{
    let ghost va = a@.map_values(|x: Vec<u8>| x@);
    let ghost vb = b@.map_values(|x: Vec<u8>| x@);
    if a.len() != b.len() {
        assert(va.len() != vb.len());
        return false;
    }
    let mut i: usize = 0;
    while i < a.len()
        invariant
            i <= a.len(),
            a.len() == b.len(),
            va == a@.map_values(|x: Vec<u8>| x@),
            vb == b@.map_values(|x: Vec<u8>| x@),
            forall|k: int| 0 <= k < i ==> va[k] == vb[k],
        decreases a.len() - i,
    {
        if !bytes_equal(&a[i], &b[i]) {
            assert(va[i as int] != vb[i as int]);
            return false;
        }
        i = i + 1;
    }
    assert(va =~= vb);
    true
}

/// `a == b` on paths.
pub fn paths_equal(a: &Vec<u8>, b: &Vec<u8>) -> (r: bool)
    ensures
        r == same_path(a@, b@),
{
    let ra = a.len() > 0 && a[0] == 47;
    let rb = b.len() > 0 && b[0] == 47;
    let ca = !ra && a.len() > 0 && a[0] == 46 && (a.len() == 1 || a[1] == 47);
    let cb = !rb && b.len() > 0 && b[0] == 46 && (b.len() == 1 || b[1] == 47);
    if ra != rb || ca != cb {
        return false;
    }
    let pa = parts_of(a);
    let pb = parts_of(b);
    part_lists_equal(&pa, &pb)
}

} // verus!
