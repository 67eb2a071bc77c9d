use vstd::prelude::*;

use crate::terminal::option_text;

verus! {

broadcast use vstd::std_specs::vec::group_vec_axioms;

/// The kind of an entry of a file tree.
#[derive(Clone, Copy, Debug, PartialEq, Eq, Structural)]
pub enum FileEntryKind {
    File,
    Folder,
}

/// One entry of a file tree listing; a folder carries its children.
#[derive(Debug, PartialEq, Eq)]
pub struct FileTreeEntry {
    pub name: String,
    pub path: String,
    pub kind: FileEntryKind,
    pub children: Option<Vec<FileTreeEntry>>,
}

/// A prepared sandbox: the supervisor binary, the root file system the
/// guest sees as `/`, and a scratch directory.
#[derive(Debug, PartialEq, Eq)]
pub struct ProotEnv {
    pub base_dir: String,
    pub proot_bin: String,
    pub rootfs_root: String,
    pub rootfs_dir: String,
    pub tmp_dir: String,
}

/// `root` without the separators at its end.
pub open spec fn root_stem(root: Seq<char>) -> Seq<char>
    decreases root.len(),
{
    if root.len() > 0 && root.last() == '/' {
        root_stem(root.drop_last())
    } else {
        root
    }
}

/// `s` without the separators at its start.
pub open spec fn skip_separators(s: Seq<char>) -> Seq<char>
    decreases s.len(),
{
    if s.len() > 0 && s[0] == '/' {
        skip_separators(s.drop_first())
    } else {
        s
    }
}

/// The guest path of a host path under the sandbox root `root`: the root
/// itself is `/`, and a path below it is `/` followed by what comes after the
/// root and its separators. A path outside the root has none.
pub open spec fn guest_path(root: Seq<char>, host: Seq<char>) -> Option<Seq<char>> {
    let r = root_stem(root);
    if host == r {
        Some(seq!['/'])
    } else if host.len() > r.len() && host.subrange(0, r.len() as int) == r && host[r.len() as int]
        == '/' {
        Some(seq!['/'] + skip_separators(host.subrange(r.len() + 1 as int, host.len() as int)))
    } else {
        None
    }
}

proof fn lemma_stem_prefix(root: Seq<char>)
    ensures
        root_stem(root).len() <= root.len(),
        root_stem(root) == root.subrange(0, root_stem(root).len() as int),
        forall|i: int| root_stem(root).len() <= i < root.len() ==> root[i] == '/',
    decreases root.len(),
{
    if root.len() > 0 && root.last() == '/' {
        lemma_stem_prefix(root.drop_last());
        assert(root.drop_last().subrange(0, root_stem(root).len() as int) =~= root.subrange(
            0,
            root_stem(root).len() as int,
        ));
        assert forall|i: int| root_stem(root).len() <= i < root.len() implies root[i] == '/' by {
            if i < root.len() - 1 {
                assert(root.drop_last()[i] == root[i]);
            }
        }
    } else {
        assert(root.subrange(0, root.len() as int) =~= root);
    }
}

/// Translates a host path under the sandbox root to the path the guest sees.
pub fn host_path_to_guest(env: &ProotEnv, host_path: &str) -> (r: Option<String>)
    ensures
        option_text(r) == guest_path(env.rootfs_dir@, host_path@),
{
    let root = env.rootfs_dir.as_str();
    let ghost rv = root@;
    let mut n = root.unicode_len();
    proof {
        lemma_stem_prefix(rv);
    }
    assert(rv.subrange(0, n as int) =~= rv);
    while n > 0 && root.get_char(n - 1) == '/'
        invariant
            n <= rv.len(),
            root@ == rv,
            rv == env.rootfs_dir@,
            root_stem(rv) == root_stem(rv.subrange(0, n as int)),
        decreases n,
    {
        assert(rv.subrange(0, n as int).drop_last() =~= rv.subrange(0, n - 1));
        n = n - 1;
    }
    let ghost r = root_stem(rv);
    assert(r == rv.subrange(0, n as int)) by {
        if n == rv.len() {
            assert(rv.subrange(0, n as int) =~= rv);
        }
    }
    let len = host_path.unicode_len();
    if len < n {
        return None;
    }
    let mut i: usize = 0;
    while i < n
        invariant
            i <= n <= len,
            n <= rv.len(),
            root@ == rv,
            rv == env.rootfs_dir@,
            len == host_path@.len(),
            r == rv.subrange(0, n as int),
            r == root_stem(rv),
            forall|k: int| 0 <= k < i ==> host_path@[k] == rv[k],
        decreases n - i,
    {
        if host_path.get_char(i) != root.get_char(i) {
            assert(host_path@.subrange(0, n as int)[i as int] != r[i as int]);
            assert(host_path@.subrange(0, n as int) != r);
            assert(r.len() == n);
            assert(host_path@ != r) by {
                if host_path@.len() == r.len() {
                    assert(host_path@[i as int] != r[i as int]);
                }
            }
            return None;
        }
        i = i + 1;
    }
    assert(host_path@.subrange(0, n as int) =~= r);
    if len == n {
        assert(host_path@ =~= r);
        let mut g = String::new();
        g.push('/');
        return Some(g);
    }
    if host_path.get_char(n) != '/' {
        assert(host_path@ != r);
        return None;
    }
    let mut j: usize = n + 1;
    assert(host_path@.subrange(n + 1, len as int) =~= host_path@.subrange(j as int, len as int));
    while j < len && host_path.get_char(j) == '/'
        invariant
            n + 1 <= j <= len,
            len == host_path@.len(),
            skip_separators(host_path@.subrange(n + 1, len as int)) == skip_separators(
                host_path@.subrange(j as int, len as int),
            ),
        decreases len - j,
    {
        assert(host_path@.subrange(j as int, len as int).drop_first() =~= host_path@.subrange(
            j + 1,
            len as int,
        ));
        j = j + 1;
    }
    let mut g = String::new();
    g.push('/');
    g.append(host_path.substring_char(j, len));
    assert(host_path@ != r);
    Some(g)
}

/// The guest form of a path, or the path itself when it is outside the root.
pub open spec fn guest_or_same(root: Seq<char>, p: Seq<char>) -> Seq<char> {
    match guest_path(root, p) {
        Some(g) => g,
        None => p,
    }
}

/// `b` is `a` with every path in the tree translated to its guest form.
pub open spec fn converted(root: Seq<char>, a: FileTreeEntry, b: FileTreeEntry) -> bool
    decreases a,
{
    &&& b.name@ == a.name@
    &&& b.kind == a.kind
    &&& b.path@ == guest_or_same(root, a.path@)
    &&& match a.children {
        None => b.children is None,
        Some(ca) => match b.children {
            None => false,
            Some(cb) => cb.len() == ca.len() && forall|i: int|
                0 <= i < ca.len() ==> converted(root, #[trigger] ca[i], cb[i]),
        },
    }
}

/// Translates every path of a tree listing to its guest form; paths outside
/// the sandbox root stay as they are.
pub fn convert_entries_to_guest(env: &ProotEnv, entries: &mut Vec<FileTreeEntry>)
    ensures
        final(entries)@.len() == old(entries)@.len(),
        forall|i: int|
            0 <= i < old(entries)@.len() ==> converted(
                env.rootfs_dir@,
                #[trigger] old(entries)@[i],
                final(entries)@[i],
            ),
    decreases old(entries)@,
{
    let ghost e0 = entries@;
    let n = entries.len();
    let mut i: usize = 0;
    while i < n
        invariant
            e0 == old(entries)@,
            entries@.len() == n == e0.len(),
            i <= n,
            forall|k: int| 0 <= k < i ==> converted(env.rootfs_dir@, #[trigger] e0[k], entries@[k]),
            forall|k: int| i <= k < n ==> #[trigger] entries@[k] == e0[k],
        decreases n - i,
    {
        let e = entries.remove(i);
        assert(e == e0[i as int]);
        let FileTreeEntry { name, path, kind, children } = e;
        let new_path = match host_path_to_guest(env, path.as_str()) {
            Some(g) => g,
            None => path,
        };
        let new_children = match children {
            Some(mut c) => {
                assert(decreases_to!(e0 => e0[i as int]));
                convert_entries_to_guest(env, &mut c);
                Some(c)
            },
            None => None,
        };
        let ghost before = entries@;
        entries.insert(i, FileTreeEntry { name, path: new_path, kind, children: new_children });
        proof {
            assert forall|k: int| 0 <= k < i + 1 implies converted(
                env.rootfs_dir@,
                #[trigger] e0[k],
                entries@[k],
            ) by {
                if k < i {
                    assert(entries@[k] == before[k]);
                }
            }
            assert forall|k: int| i + 1 <= k < n implies #[trigger] entries@[k] == e0[k] by {
                assert(entries@[k] == before[k - 1]);
            }
        }
        i = i + 1;
    }
}

/// A guest path built from the sandbox root and a path relative to it is that
/// relative path (one that does not start with a separator), rooted at `/`.
pub proof fn lemma_guest_path_inverse(root: Seq<char>, rel: Seq<char>)
    requires
        root.len() > 0,
        root.last() != '/',
        rel.len() == 0 || rel[0] != '/',
    ensures
        guest_path(root, root + seq!['/'] + rel) == Some(seq!['/'] + rel),
{
    let host = root + seq!['/'] + rel;
    assert(root_stem(root) == root);
    assert(host.subrange(0, root.len() as int) =~= root);
    assert(host.subrange(root.len() + 1 as int, host.len() as int) =~= rel);
    assert(skip_separators(rel) == rel);
    assert(host != root) by {
        assert(host.len() != root.len());
    }
}

} // verus!
