//! The filesystem commands, each acting on the arena of nodes: listing
//! and finding children, making directories and files, reading and
//! appending file contents, and printing the working path.

use vstd::prelude::*;
use crate::graph::{Node, NodePointer};
use crate::filesystem::{FileNode, FileType, FileObject, Name, Data, file_name, file_data};
use crate::text::{chars_of, string_from_chars, chars_eq, str_eq};

verus! {

/// A well-formed arena: every node has at least a parent edge, all
/// edges stay inside the arena, and each parent sits earlier in the
/// arena than its child (the root is its own parent).
pub open spec fn fs_node_ok(ns: Seq<FileNode>, i: int) -> bool {
    let es = ns[i].1@;
    es.len() >= 1 && (forall|j: int| 0 <= j < es.len() ==> (#[trigger] es[j]) < ns.len()) && (if i
        == 0 {
        es[0] == 0
    } else {
        es[0] < i
    })
}

pub open spec fn fs_ok(ns: Seq<FileNode>) -> bool {
    ns.len() >= 1 && (forall|i: int| 0 <= i < ns.len() ==> #[trigger] fs_node_ok(ns, i))
}

/// The listing text: the names reached through `es`, tab separated,
/// accumulated left to right onto `acc`.
pub open spec fn sp_ls_acc(ns: Seq<FileNode>, es: Seq<NodePointer>, k: int, acc: Seq<char>) -> Seq<
    char,
>
    decreases (if k < es.len() { es.len() - k } else { 0 }),
{
    if !(1 <= k < es.len()) {
        acc
    } else {
        let nm = file_name(ns[es[k] as int].0);
        sp_ls_acc(ns, es, k + 1, acc + (if k > 1 {
            seq!['\t']
        } else {
            Seq::empty()
        }) + nm)
    }
}

/// Lists the directory's children (every edge but the parent), tab
/// separated.
pub fn ls(nodes: &Vec<FileNode>, directory: NodePointer) -> (r: String)
    requires
        fs_ok(nodes@),
        directory < nodes@.len(),
    ensures
        r@ == sp_ls_acc(nodes@, nodes@[directory as int].1@, 1, Seq::empty()),
{
    let ghost ns = nodes@;
    let ghost es = nodes@[directory as int].1@;
    let mut acc: Vec<char> = Vec::new();
    let mut k: usize = 1;
    proof {
        assert(acc@ =~= Seq::<char>::empty());
    }
    loop
        invariant_except_break
            1 <= k,
            ns == nodes@,
            es == nodes@[directory as int].1@,
            fs_ok(nodes@),
            directory < nodes@.len(),
            sp_ls_acc(ns, es, 1, Seq::empty()) == sp_ls_acc(ns, es, k as int, acc@),
        ensures
            acc@ == sp_ls_acc(ns, es, 1, Seq::empty()),
        decreases (if (k as int) < es.len() { es.len() - k } else { 0 }),
    {
        if k >= nodes[directory].1.len() {
            proof {
                assert(sp_ls_acc(ns, es, k as int, acc@) == acc@);
            }
            break ;
        }
        proof {
            assert(fs_node_ok(ns, directory as int));
        }
        let e = nodes[directory].1[k];
        proof {
            assert(es[k as int] < ns.len());
        }
        let nm = nodes[e].0.name();
        let nmv = chars_of(nm.as_str());
        let ghost before = acc@;
        if k > 1 {
            acc.push('\t');
        }
        let mut x: usize = 0;
        while x < nmv.len()
            invariant
                x <= nmv@.len(),
                nmv@ == file_name(ns[es[k as int] as int].0),
                acc@ =~= (if k > 1 {
                    before + seq!['\t']
                } else {
                    before
                }) + nmv@.subrange(0, x as int),
            decreases nmv@.len() - x,
        {
            let c = nmv[x];
            acc.push(c);
            proof {
                assert(nmv@.subrange(0, x as int).push(c) =~= nmv@.subrange(0, x as int + 1));
            }
            x += 1;
        }
        proof {
            assert(nmv@.subrange(0, nmv@.len() as int) =~= nmv@);
            assert(acc@ =~= before + (if k > 1 {
                seq!['\t']
            } else {
                Seq::<char>::empty()
            }) + nmv@);
            assert(sp_ls_acc(ns, es, k as int, before) == sp_ls_acc(ns, es, k as int + 1, acc@));
        }
        k += 1;
    }
    string_from_chars(&acc)
}

/// The path from the root down to `d`, each step written `/name`.
pub open spec fn sp_path(ns: Seq<FileNode>, d: int) -> Seq<char>
    decreases (if d > 0 { d } else { 0 }),
{
    if !(0 < d < ns.len()) {
        Seq::empty()
    } else {
        let p = ns[d].1@[0] as int;
        if 0 <= p < d {
            sp_path(ns, p) + seq!['/'] + file_name(ns[d].0)
        } else {
            seq!['/'] + file_name(ns[d].0)
        }
    }
}

/// The working path: `/` for the root, else the names down from the
/// root.
pub open spec fn sp_pwd(ns: Seq<FileNode>, d: int) -> Seq<char> {
    if sp_path(ns, d).len() == 0 {
        seq!['/']
    } else {
        sp_path(ns, d)
    }
}

/// Prints the path of `directory`.
pub fn pwd(nodes: &Vec<FileNode>, directory: NodePointer) -> (r: String)
    requires
        fs_ok(nodes@),
        directory < nodes@.len(),
    ensures
        r@ == sp_pwd(nodes@, directory as int),
{
    let ghost ns = nodes@;
    let mut chain: Vec<NodePointer> = Vec::new();
    let mut cur = directory;
    loop
        invariant_except_break
            ns == nodes@,
            fs_ok(ns),
            cur < ns.len(),
            forall|j: int| 0 <= j < chain@.len() ==> 0 < #[trigger] chain@[j] < ns.len(),
            chain@.len() > 0 ==> chain@[0] == directory,
            chain@.len() == 0 ==> cur == directory,
            chain@.len() > 0 ==> cur == ns[chain@.last() as int].1@[0],
            forall|j: int|
                0 <= j < chain@.len() - 1 ==> ns[#[trigger] chain@[j] as int].1@[0] == chain@[j
                    + 1],
        ensures
            ns == nodes@,
            cur == 0,
            forall|j: int| 0 <= j < chain@.len() ==> 0 < #[trigger] chain@[j] < ns.len(),
            chain@.len() > 0 ==> chain@[0] == directory,
            chain@.len() == 0 ==> directory == 0,
            chain@.len() > 0 ==> ns[chain@.last() as int].1@[0] == 0,
            forall|j: int|
                0 <= j < chain@.len() - 1 ==> ns[#[trigger] chain@[j] as int].1@[0] == chain@[j
                    + 1],
        decreases cur,
    {
        if cur == 0 {
            break ;
        }
        proof {
            assert(fs_node_ok(ns, cur as int));
        }
        chain.push(cur);
        cur = nodes[cur].1[0];
    }
    let mut acc: Vec<char> = Vec::new();
    let mut k = chain.len();
    proof {
        assert(acc@ =~= Seq::<char>::empty());
        assert(sp_path(ns, 0) == Seq::<char>::empty());
    }
    while k > 0
        invariant
            k <= chain@.len(),
            ns == nodes@,
            fs_ok(ns),
            forall|j: int| 0 <= j < chain@.len() ==> 0 < #[trigger] chain@[j] < ns.len(),
            chain@.len() > 0 ==> chain@[0] == directory,
            forall|j: int|
                0 <= j < chain@.len() - 1 ==> ns[#[trigger] chain@[j] as int].1@[0] == chain@[j
                    + 1],
            chain@.len() > 0 ==> ns[chain@.last() as int].1@[0] == 0,
            acc@ == (if k == chain@.len() {
                Seq::<char>::empty()
            } else {
                sp_path(ns, chain@[k as int] as int)
            }),
        decreases k,
    {
        let c = chain[k - 1];
        let nm = nodes[c].0.name();
        let nmv = chars_of(nm.as_str());
        let ghost before = acc@;
        acc.push('/');
        let mut x: usize = 0;
        while x < nmv.len()
            invariant
                x <= nmv@.len(),
                nmv@ == file_name(ns[chain@[k - 1] as int].0),
                acc@ =~= before + seq!['/'] + nmv@.subrange(0, x as int),
            decreases nmv@.len() - x,
        {
            let ch = nmv[x];
            acc.push(ch);
            proof {
                assert(nmv@.subrange(0, x as int).push(ch) =~= nmv@.subrange(0, x as int + 1));
            }
            x += 1;
        }
        proof {
            assert(nmv@.subrange(0, nmv@.len() as int) =~= nmv@);
            let ci = chain@[k - 1] as int;
            assert(fs_node_ok(ns, ci));
            let p = ns[ci].1@[0] as int;
            assert(0 <= p < ci);
            if k == chain@.len() {
                assert(chain@[k - 1] == chain@.last());
                assert(p == 0);
                assert(sp_path(ns, ci) == sp_path(ns, 0) + seq!['/'] + file_name(ns[ci].0));
                assert(sp_path(ns, 0) == Seq::<char>::empty());
                assert(before == Seq::<char>::empty());
                assert(acc@ =~= sp_path(ns, ci));
            } else {
                assert(p == chain@[k as int]);
                assert(sp_path(ns, ci) == sp_path(ns, p) + seq!['/'] + file_name(ns[ci].0));
                assert(before == sp_path(ns, p));
                assert(acc@ =~= sp_path(ns, ci));
            }
        }
        k -= 1;
    }
    proof {
        if chain@.len() > 0 {
            assert(acc@ == sp_path(ns, chain@[0] as int));
        } else {
            assert(sp_path(ns, directory as int) == Seq::<char>::empty());
        }
    }
    if acc.len() == 0 {
        let mut s: Vec<char> = Vec::new();
        s.push('/');
        proof {
            assert(s@ =~= seq!['/']);
        }
        string_from_chars(&s)
    } else {
        string_from_chars(&acc)
    }
}

/// Makes a directory under `directory`: a fresh node whose parent edge
/// points back, appended to the arena and connected as a child.
pub fn mkdir(nodes: &mut Vec<FileNode>, directory: NodePointer, name: Name)
    requires
        fs_ok(old(nodes)@),
        directory < old(nodes)@.len(),
    ensures
        final(nodes)@.len() == old(nodes)@.len() + 1,
        forall|i: int|
            0 <= i < old(nodes)@.len() && i != directory ==> final(nodes)@[i] == old(nodes)@[i],
        final(nodes)@[directory as int].0 == old(nodes)@[directory as int].0,
        final(nodes)@[directory as int].1@ == old(nodes)@[directory as int].1@.push(
            old(nodes)@.len() as usize,
        ),
        final(nodes)@[old(nodes)@.len() as int].0 == (FileType::Directory { name }),
        final(nodes)@[old(nodes)@.len() as int].1@ == seq![directory],
        fs_ok(final(nodes)@),
{
    let idx = nodes.len();
    let mut edge: Vec<NodePointer> = Vec::new();
    edge.push(directory);
    proof {
        assert(edge@ =~= seq![directory]);
    }
    nodes.push(FileNode::create_directory(name, edge));
    nodes[directory].1.push(idx);
    proof {
        lemma_fs_ok_grow(old(nodes)@, nodes@, directory as int);
    }
}

/// Makes a file under `directory`, with contents `data`.
pub fn touch(nodes: &mut Vec<FileNode>, directory: NodePointer, name: Name, data: Data)
    requires
        fs_ok(old(nodes)@),
        directory < old(nodes)@.len(),
    ensures
        final(nodes)@.len() == old(nodes)@.len() + 1,
        forall|i: int|
            0 <= i < old(nodes)@.len() && i != directory ==> final(nodes)@[i] == old(nodes)@[i],
        final(nodes)@[directory as int].0 == old(nodes)@[directory as int].0,
        final(nodes)@[directory as int].1@ == old(nodes)@[directory as int].1@.push(
            old(nodes)@.len() as usize,
        ),
        final(nodes)@[old(nodes)@.len() as int].0 == (FileType::File { name, data }),
        final(nodes)@[old(nodes)@.len() as int].1@ == seq![directory],
        fs_ok(final(nodes)@),
{
    let idx = nodes.len();
    let mut edge: Vec<NodePointer> = Vec::new();
    edge.push(directory);
    proof {
        assert(edge@ =~= seq![directory]);
    }
    nodes.push(FileNode::create_file(name, data, edge));
    nodes[directory].1.push(idx);
    proof {
        lemma_fs_ok_grow(old(nodes)@, nodes@, directory as int);
    }
}

proof fn lemma_fs_ok_grow(pre: Seq<FileNode>, post: Seq<FileNode>, d: int)
    requires
        fs_ok(pre),
        0 <= d < pre.len(),
        post.len() == pre.len() + 1,
        forall|i: int| 0 <= i < pre.len() && i != d ==> post[i] == pre[i],
        post[d].1@ == pre[d].1@.push(pre.len() as usize),
        post[pre.len() as int].1@ == seq![d as usize],
    ensures
        fs_ok(post),
{
    assert forall|i: int| 0 <= i < post.len() implies #[trigger] fs_node_ok(post, i) by {
        if i < pre.len() {
            assert(fs_node_ok(pre, i));
            if i != d {
                assert(post[i] == pre[i]);
            } else {
                let es = post[i].1@;
                assert(es[0] == pre[d].1@[0]);
                assert forall|j: int| 0 <= j < es.len() implies (#[trigger] es[j])
                    < post.len() by {
                    if j < pre.len() && j < es.len() - 1 {
                        assert(es[j] == pre[d].1@[j]);
                    }
                }
            }
        } else {
            assert(post[i].1@ == seq![d as usize]);
            assert(post[i].1@[0] == d as usize);
        }
    }
}

/// Appends `input` to the file's contents; a directory cannot be
/// written.
pub fn write(nodes: &mut Vec<FileNode>, file: NodePointer, input: &str) -> (r: Result<(), ()>)
    requires
        file < old(nodes)@.len(),
    ensures
        final(nodes)@.len() == old(nodes)@.len(),
        forall|i: int| 0 <= i < old(nodes)@.len() && i != file ==> final(nodes)@[i] == old(nodes)@[i],
        final(nodes)@[file as int].1 == old(nodes)@[file as int].1,
        match r {
            Ok(()) => (old(nodes)@[file as int].0 matches FileType::File { .. }) && (final(nodes)@[file as int].0 matches FileType::File { .. }) && file_name(
                final(nodes)@[file as int].0,
            ) == file_name(old(nodes)@[file as int].0) && file_data(final(nodes)@[file as int].0)
                == file_data(old(nodes)@[file as int].0) + input@,
            Err(()) => !(old(nodes)@[file as int].0 matches FileType::File { .. }) && final(nodes)@[file as int] == old(nodes)@[file as int],
        },
{
    match &mut nodes[file].0 {
        FileType::File { name: _, data } => {
            data.append(input);
            Ok(())
        },
        _ => Err(()),
    }
}

/// Reads the file's contents; a directory cannot be read.
pub fn read(nodes: &Vec<FileNode>, file: NodePointer) -> (r: Result<Data, ()>)
    requires
        file < nodes@.len(),
    ensures
        match r {
            Ok(d) => (nodes@[file as int].0 matches FileType::File { .. }) && d@ == file_data(
                nodes@[file as int].0,
            ),
            Err(()) => !(nodes@[file as int].0 matches FileType::File { .. }),
        },
{
    match &nodes[file].0 {
        FileType::File { name: _, data } => Ok(data.clone()),
        _ => Err(()),
    }
}

/// The first edge of `es` leading to a node named `t`.
pub open spec fn sp_find(ns: Seq<FileNode>, es: Seq<NodePointer>, t: Seq<char>) -> Option<
    NodePointer,
>
    decreases es.len(),
{
    if es.len() == 0 {
        None
    } else if file_name(ns[es[0] as int].0) == t {
        Some(es[0])
    } else {
        sp_find(ns, es.skip(1), t)
    }
}

/// Finds the first edge of `directory` whose node is named `target`;
/// the parent edge takes part in the search, as it always did.
pub fn find(nodes: &Vec<FileNode>, directory: NodePointer, target: &str) -> (r: Result<
    NodePointer,
    (),
>)
    requires
        fs_ok(nodes@),
        directory < nodes@.len(),
    ensures
        match r {
            Ok(p) => sp_find(nodes@, nodes@[directory as int].1@, target@) == Some(p) && p
                < nodes@.len(),
            Err(()) => sp_find(nodes@, nodes@[directory as int].1@, target@) is None,
        },
{
    let ghost ns = nodes@;
    let ghost es = nodes@[directory as int].1@;
    let tv = chars_of(target);
    let mut k: usize = 0;
    proof {
        assert(es.skip(0) =~= es);
    }
    loop
        invariant_except_break
            k <= es.len(),
            ns == nodes@,
            es == nodes@[directory as int].1@,
            fs_ok(ns),
            directory < ns.len(),
            tv@ == target@,
            sp_find(ns, es, target@) == sp_find(ns, es.skip(k as int), target@),
        ensures
            ns == nodes@,
            match (sp_find(ns, es, target@)) {
                Some(p) => k < es.len() && es[k as int] == p,
                None => k >= es.len(),
            },
        decreases es.len() - k,
    {
        if k >= nodes[directory].1.len() {
            proof {
                assert(es.skip(k as int).len() == 0);
            }
            break ;
        }
        proof {
            assert(fs_node_ok(ns, directory as int));
        }
        let e = nodes[directory].1[k];
        proof {
            assert(es[k as int] < ns.len());
            assert(es.skip(k as int)[0] == es[k as int]);
        }
        let nm = nodes[e].0.name();
        let nv = chars_of(nm.as_str());
        if chars_eq(&nv, &tv) {
            proof {
                assert(sp_find(ns, es.skip(k as int), target@) == Some(es[k as int]));
            }
            break ;
        }
        proof {
            assert(es.skip(k as int).skip(1) =~= es.skip(k as int + 1));
        }
        k += 1;
    }
    proof {
        assert(fs_node_ok(ns, directory as int));
    }
    if k < nodes[directory].1.len() {
        Ok(nodes[directory].1[k])
    } else {
        Err(())
    }
}

} // verus!
