use vstd::prelude::*;

verus! {

/// The path separator byte, `/`.
pub const SEPARATOR: u8 = 47;

/// A path is absolute when it starts with the separator.
pub open spec fn is_absolute(p: Seq<u8>) -> bool {
    p.len() > 0 && p[0] == SEPARATOR
}

/// `base` joined with `p`, as `PathBuf::push` does it: an absolute `p`
/// replaces `base`; otherwise a separator is put between them unless `base`
/// is empty or already ends with one.
pub open spec fn joined(base: Seq<u8>, p: Seq<u8>) -> Seq<u8> {
    if is_absolute(p) || base.len() == 0 {
        p
    } else if base.last() == SEPARATOR {
        base + p
    } else {
        base + seq![SEPARATOR] + p
    }
}

/// The byte contents of each path of a sequence.
pub open spec fn views(s: Seq<Vec<u8>>) -> Seq<Seq<u8>> {
    s.map_values(|v: Vec<u8>| v@)
}

/// Appends the bytes of `src` to `dst`.
pub(crate) fn append_all(dst: &mut Vec<u8>, src: &[u8])
    ensures
        final(dst)@ == old(dst)@ + src@,
{
    let mut i: usize = 0;
    while i < src.len()
        invariant
            i <= src@.len(),
            dst@ == old(dst)@ + src@.subrange(0, i as int),
        decreases src@.len() - i,
    {
        dst.push(src[i]);
        i = i + 1;
        assert(src@.subrange(0, i as int) == src@.subrange(0, i - 1 as int).push(src@[i - 1]));
    }
    assert(src@.subrange(0, i as int) == src@);
}

/// Joins `p` onto the working directory `base`.
pub fn join(base: &[u8], p: &[u8]) -> (r: Vec<u8>)
    ensures
        r@ == joined(base@, p@),
{
    let mut r: Vec<u8> = Vec::new();
    if (p.len() > 0 && p[0] == SEPARATOR) || base.len() == 0 {
        append_all(&mut r, p);
    } else {
        append_all(&mut r, base);
        if base[base.len() - 1] != SEPARATOR {
            r.push(SEPARATOR);
        }
        append_all(&mut r, p);
    }
    r
}

/// The path `c` made relative to `base`, compared component by component as
/// `Path::strip_prefix` does on paths in canonical form (no `.`, `..` or
/// repeated separators): `None` when `c` does not lie under `base`.
pub open spec fn relative_to(c: Seq<u8>, base: Seq<u8>) -> Option<Seq<u8>> {
    if base.len() <= c.len() && c.subrange(0, base.len() as int) == base {
        let rest = c.subrange(base.len() as int, c.len() as int);
        if rest.len() == 0 {
            Some(rest)
        } else if rest[0] == SEPARATOR {
            Some(rest.subrange(1, rest.len() as int))
        } else if base.len() > 0 && base.last() == SEPARATOR {
            Some(rest)
        } else {
            None
        }
    } else {
        None
    }
}

/// What a file is called in the output: its canonical path in absolute mode;
/// otherwise that path relative to the working directory, or the canonical
/// path itself where it does not lie under the working directory.
pub open spec fn display_of(canonical: Seq<u8>, absolute: bool, cwd: Seq<u8>) -> Seq<u8> {
    if absolute {
        canonical
    } else {
        match relative_to(canonical, cwd) {
            Some(r) => r,
            None => canonical,
        }
    }
}

/// The canonical form of an argument `p`: what the operating system gave as
/// its canonical form, or, where that failed, `p` joined onto the working
/// directory.
pub open spec fn resolved(p: Seq<u8>, canonical: Option<Seq<u8>>, cwd: Seq<u8>) -> Seq<u8> {
    match canonical {
        Some(c) => c,
        None => joined(cwd, p),
    }
}

fn copy_range(src: &[u8], start: usize) -> (r: Vec<u8>)
    requires
        start <= src@.len(),
    ensures
        r@ == src@.subrange(start as int, src@.len() as int),
{
    let mut r: Vec<u8> = Vec::new();
    let mut i: usize = start;
    while i < src.len()
        invariant
            start <= i <= src@.len(),
            r@ == src@.subrange(start as int, i as int),
        decreases src@.len() - i,
    {
        r.push(src[i]);
        i = i + 1;
        assert(src@.subrange(start as int, i as int) == src@.subrange(start as int, i - 1 as int).push(src@[i - 1]));
    }
    r
}

/// Whether `s` begins with `prefix`.
pub(crate) fn starts_with(s: &[u8], prefix: &[u8]) -> (r: bool)
    ensures
        r == (prefix@.len() <= s@.len() && s@.subrange(0, prefix@.len() as int) == prefix@),
{
    if prefix.len() > s.len() {
        return false;
    }
    let mut i: usize = 0;
    while i < prefix.len()
        invariant
            prefix@.len() <= s@.len(),
            i <= prefix@.len(),
            forall|j: int| 0 <= j < i ==> s@[j] == prefix@[j],
        decreases prefix@.len() - i,
    {
        if s[i] != prefix[i] {
            assert(s@.subrange(0, prefix@.len() as int)[i as int] != prefix@[i as int]);
            return false;
        }
        i = i + 1;
    }
    assert(s@.subrange(0, prefix@.len() as int) =~= prefix@);
    true
}

/// Whether `a` and `b` hold the same bytes.
pub(crate) fn same_bytes(a: &[u8], b: &[u8]) -> (r: bool)
    ensures
        r == (a@ == b@),
{
    if a.len() != b.len() {
        return false;
    }
    assert(a@ =~= a@.subrange(0, b@.len() as int));
    starts_with(a, b)
}

/// Whether `list` holds the path `p`.
pub(crate) fn contains_path(list: &Vec<Vec<u8>>, p: &[u8]) -> (r: bool)
    ensures
        r == views(list@).contains(p@),
{
    let mut i: usize = 0;
    while i < list.len()
        invariant
            i <= list@.len(),
            forall|k: int| 0 <= k < i ==> list@[k]@ != p@,
        decreases list@.len() - i,
    {
        if same_bytes(list[i].as_slice(), p) {
            assert(views(list@)[i as int] == p@);
            return true;
        }
        i = i + 1;
    }
    assert(!views(list@).contains(p@)) by {
        assert forall|k: int| 0 <= k < views(list@).len() implies views(list@)[k] != p@ by {
            assert(list@[k]@ != p@);
        }
    }
    false
}

/// The canonical path `canonical` relative to `base`, or `None` where it
/// does not lie under `base`.
pub fn strip_base(canonical: &[u8], base: &[u8]) -> (r: Option<Vec<u8>>)
    ensures
        r matches Some(v) ==> relative_to(canonical@, base@) == Some(v@),
        r is None ==> relative_to(canonical@, base@) is None,
{
    if !starts_with(canonical, base) {
        return None;
    }
    let n = base.len();
    if n == canonical.len() {
        let r = Vec::new();
        assert(r@ =~= canonical@.subrange(n as int, canonical@.len() as int));
        Some(r)
    } else if canonical[n] == SEPARATOR {
        let r = copy_range(canonical, n + 1);
        let ghost rest = canonical@.subrange(n as int, canonical@.len() as int);
        assert(r@ =~= rest.subrange(1, rest.len() as int));
        Some(r)
    } else if n > 0 && base[n - 1] == SEPARATOR {
        Some(copy_range(canonical, n))
    } else {
        None
    }
}

/// The display path of a file: `canonical` in absolute mode, else relative
/// to the working directory `cwd` when it lies under it.
pub fn get_relative_path(canonical: &[u8], absolute: bool, cwd: &[u8]) -> (r: Vec<u8>)
    ensures
        r@ == display_of(canonical@, absolute, cwd@),
{
    if absolute {
        return copy_range(canonical, 0);
    }
    match strip_base(canonical, cwd) {
        Some(r) => r,
        None => copy_range(canonical, 0),
    }
}

/// The bytes held by an optional byte vector.
pub open spec fn opt_view(o: Option<Vec<u8>>) -> Option<Seq<u8>> {
    match o {
        Some(v) => Some(v@),
        None => None,
    }
}

/// Resolves the argument `path`. `canonical` is what the operating system
/// returned when asked for its canonical form (`None` where it failed, as for
/// a path that does not exist); the fallback joins `path` onto `cwd`.
pub fn resolve_path(path: &[u8], canonical: Option<Vec<u8>>, cwd: &[u8]) -> (r: Vec<u8>)
    ensures
        r@ == resolved(path@, opt_view(canonical), cwd@),
{
    match canonical {
        Some(c) => c,
        None => join(cwd, path),
    }
}

/// Resolution is idempotent: resolving a resolved path gives it back. The
/// operating system's canonical form of a path is absolute and its own
/// canonical form, and a path that has none still has none once joined onto
/// the (absolute) working directory.
pub proof fn lemma_resolve_idempotent(
    p: Seq<u8>,
    first: Option<Seq<u8>>,
    second: Option<Seq<u8>>,
    cwd: Seq<u8>,
)
    requires
        is_absolute(cwd),
        first matches Some(c) ==> is_absolute(c),
        second == first,
    ensures
        resolved(resolved(p, first, cwd), second, cwd) == resolved(p, first, cwd),
{
    let once = resolved(p, first, cwd);
    if first is None {
        if !is_absolute(p) {
            assert(once[0] == cwd[0]);
        }
        assert(is_absolute(once));
    }
}

} // verus!
