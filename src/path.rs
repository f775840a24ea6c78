use vstd::prelude::*;

use crate::errno::errno_of;

verus! {

/// Whether `p` is absolute: it starts with `/`.
pub open spec fn is_absolute(p: Seq<char>) -> bool {
    p.len() > 0 && p[0] == '/'
}

/// `rel` appended to the directory `base`, with one `/` between them. The
/// segments `.` and `..` are kept as they are.
pub open spec fn join(base: Seq<char>, rel: Seq<char>) -> Seq<char> {
    if base.len() > 0 && base.last() == '/' {
        base + rel
    } else {
        base + seq!['/'] + rel
    }
}

/// `p` without a leading `./`.
pub open spec fn strip_dot_slash(p: Seq<char>) -> Seq<char> {
    if p.len() >= 2 && p[0] == '.' && p[1] == '/' {
        p.subrange(2, p.len() as int)
    } else {
        p
    }
}

/// The absolute path that `p` names when the working directory is `cwd`,
/// or `None` for the empty path.
pub open spec fn root_path(cwd: Seq<char>, p: Seq<char>) -> Option<Seq<char>> {
    if p.len() == 0 {
        None
    } else if is_absolute(p) {
        Some(p)
    } else {
        Some(join(cwd, strip_dot_slash(p)))
    }
}

/// The index of the last `/` in `p`, or -1 where there is none.
pub open spec fn last_slash(p: Seq<char>) -> int
    decreases p.len(),
{
    if p.len() == 0 {
        -1
    } else if p.last() == '/' {
        p.len() - 1
    } else {
        last_slash(p.drop_last())
    }
}

/// The directory that holds `p`: what stands before its last `/`, or `/`
/// where that is empty. A path without `/` has the empty parent.
pub open spec fn parent_of(p: Seq<char>) -> Seq<char> {
    let k = last_slash(p);
    if k < 0 {
        Seq::empty()
    } else if k == 0 {
        seq!['/']
    } else {
        p.subrange(0, k)
    }
}

proof fn lemma_last_slash_append(s: Seq<char>, t: Seq<char>)
    requires
        forall|i: int| 0 <= i < t.len() ==> t[i] != '/',
    ensures
        last_slash(s + t) == last_slash(s),
    decreases t.len(),
{
    if t.len() == 0 {
        assert(s + t =~= s);
    } else {
        assert((s + t).last() == t.last());
        assert((s + t).drop_last() =~= s + t.drop_last());
        lemma_last_slash_append(s, t.drop_last());
    }
}

/// A name without `/` joined to a directory lies directly in it, where the
/// directory is `/` or does not end in `/`.
pub proof fn lemma_parent_of_join(a: Seq<char>, name: Seq<char>)
    requires
        is_absolute(a),
        a == seq!['/'] || a.last() != '/',
        forall|i: int| 0 <= i < name.len() ==> name[i] != '/',
    ensures
        parent_of(join(a, name)) == a,
{
    if a == seq!['/'] {
        lemma_last_slash_append(a, name);
        assert(last_slash(a) == 0);
    } else {
        let b = a + seq!['/'];
        lemma_last_slash_append(b, name);
        assert(b.last() == '/');
        assert(last_slash(b) == a.len());
        assert(join(a, name) == b + name);
        assert((b + name).subrange(0, a.len() as int) =~= a);
    }
}

/// A path resolved from an absolute directory is absolute.
pub proof fn lemma_root_path_absolute(base: Seq<char>, p: Seq<char>)
    requires
        is_absolute(base),
    ensures
        root_path(base, p) is Some ==> is_absolute(root_path(base, p)->Some_0),
{
    let r = strip_dot_slash(p);
    if base.last() == '/' {
        assert((base + r)[0] == base[0]);
    } else {
        assert((base + seq!['/'] + r)[0] == base[0]);
    }
}

/// Whether `s` starts with `/`.
pub fn starts_with_slash(s: &str) -> (r: bool)
    ensures
        r == is_absolute(s@),
{
    let n = s.unicode_len();
    n > 0 && s.get_char(0) == '/'
}

/// The string `/`.
pub fn slash() -> (r: String)
    ensures
        r@ == seq!['/'],
{
    let r = String::from_str("/");
    proof {
        reveal_strlit("/");
        assert(r@ =~= seq!['/']);
    }
    r
}

/// Appends `rel` to the directory `base`; see [`join`].
pub fn join_path(base: &str, rel: &str) -> (r: String)
    ensures
        r@ == join(base@, rel@),
{
    let n = base.unicode_len();
    let mut r = String::from_str(base);
    if !(n > 0 && base.get_char(n - 1) == '/') {
        let s = slash();
        r.append(s.as_str());
    }
    r.append(rel);
    r
}

/// `p` without a leading `./`.
pub fn without_dot_slash(p: &str) -> (r: &str)
    ensures
        r@ == strip_dot_slash(p@),
{
    let n = p.unicode_len();
    if n >= 2 && p.get_char(0) == '.' && p.get_char(1) == '/' {
        p.substring_char(2, n)
    } else {
        p
    }
}

/// Turns `path` into an absolute path: an absolute path is kept, a
/// relative one is joined to `cwd` after a leading `./` is dropped.
/// The empty path is refused with `EINVAL`.
pub fn to_root_path(cwd: &str, path: &str) -> (r: Result<String, axerrno::LinuxError>)
    ensures
        match root_path(cwd@, path@) {
            Some(q) => r is Ok && r->Ok_0@ == q,
            None => r == Err::<String, axerrno::LinuxError>(axerrno::LinuxError::EINVAL),
        },
{
    if path.unicode_len() == 0 {
        return Err(axerrno::LinuxError::EINVAL);
    }
    if starts_with_slash(path) {
        return Ok(String::from_str(path));
    }
    let rel = without_dot_slash(path);
    Ok(join_path(cwd, rel))
}

/// The directory that holds the path `p`; see [`parent_of`].
pub fn parent_path(p: &str) -> (r: String)
    ensures
        r@ == parent_of(p@),
{
    let n = p.unicode_len();
    let mut i: usize = 0;
    let mut found = false;
    let mut last: usize = 0;
    while i < n
        invariant
            n == p@.len(),
            i <= n,
            found ==> last < i && last as int == last_slash(p@.subrange(0, i as int)),
            !found ==> last_slash(p@.subrange(0, i as int)) == -1,
        decreases n - i,
    {
        let c = p.get_char(i);
        proof {
            let s = p@.subrange(0, i as int + 1);
            assert(s.drop_last() =~= p@.subrange(0, i as int));
            assert(s.last() == c);
        }
        if c == '/' {
            found = true;
            last = i;
        }
        i = i + 1;
    }
    assert(p@.subrange(0, n as int) =~= p@);
    if !found {
        String::new()
    } else if last == 0 {
        slash()
    } else {
        String::from_str(p.substring_char(0, last))
    }
}

} // verus!
