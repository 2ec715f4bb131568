//! The shell: parses one command line and drives the filesystem
//! commands against the tree it owns.

use vstd::prelude::*;
use crate::graph::{Node, NodePointer, Edge};
use crate::filesystem::{FileNode, FileType, FileObject, Name, Data, file_name, file_data};
use crate::command::{ls, pwd, mkdir, touch, read, find, fs_ok, sp_ls_acc, sp_pwd, sp_find};
use crate::logger::{LoggerRepository, LoggerInteractor};
use crate::text::{
    sp_split, sp_trim, sp_rfind, run_end, ws_p, chars_of, split_char, trim_chars, string_from_chars,
    rfind_chars, subvec, chars_eq, vv_v, str_eq,
};

verus! {

pub type Buffer = String;

pub type Arg = str;

pub type CommandResult = Result<Option<String>, CommandError>;

/// What a command line can fail with.
#[derive(Debug, PartialEq)]
pub enum CommandError {
    UnknownError,
    NotFound,
    IllegalArgument,
    NotFile,
    CommandNotFound(String),
}

/// The mathematical image of a command error.
pub enum CommandErrorView {
    UnknownError,
    NotFound,
    IllegalArgument,
    NotFile,
    CommandNotFound(Seq<char>),
}

impl View for CommandError {
    type V = CommandErrorView;

    open spec fn view(&self) -> CommandErrorView {
        match self {
            CommandError::UnknownError => CommandErrorView::UnknownError,
            CommandError::NotFound => CommandErrorView::NotFound,
            CommandError::IllegalArgument => CommandErrorView::IllegalArgument,
            CommandError::NotFile => CommandErrorView::NotFile,
            CommandError::CommandNotFound(s) => CommandErrorView::CommandNotFound(s@),
        }
    }
}

/// The words of a command line: trimmed, then split at every single
/// space.
pub open spec fn sp_argv(buffer: Seq<char>) -> Seq<Seq<char>> {
    sp_split(sp_trim(buffer), ' ')
}

/// The shell session: the arena of filesystem nodes, the root and the
/// working directory.
#[derive(Debug)]
pub struct Shell<T> where T: LoggerRepository {
    pub nodes: Vec<FileNode>,
    pub root: NodePointer,
    pub current: NodePointer,
    pub logger: LoggerInteractor<T>,
}

/// A sink that discards every message.
pub struct DefaultLoggerRepository {}

impl LoggerRepository for DefaultLoggerRepository {
    fn print(&self, _message: &str) {
    }
}

impl Shell<DefaultLoggerRepository> {
    pub fn init() -> (sh: Shell<DefaultLoggerRepository>)
        ensures
            sh.wf(),
            sh.nodes@.len() == 1,
            sh.current == 0,
            file_name(sh.nodes@[0].0).len() == 0,
            sh.nodes@[0].0 matches FileType::Directory { .. },
            sh.nodes@[0].1@ == seq![0usize],
    {
        Shell::init_with_logger(DefaultLoggerRepository {  })
    }
}

impl<T: LoggerRepository> Shell<T> {
    /// A session in good standing: a well-formed arena, the cursor
    /// inside it, the root at the arena's base.
    pub open spec fn wf(&self) -> bool {
        fs_ok(self.nodes@) && (self.current as int) < self.nodes@.len() && self.root == 0
    }

    fn new(nodes: Vec<FileNode>, root: NodePointer, current: NodePointer, logger: T) -> (sh: Shell<
        T,
    >)
        ensures
            sh.nodes == nodes,
            sh.root == root,
            sh.current == current,
    {
        Shell { nodes, root, current, logger: LoggerInteractor::new(logger) }
    }

    pub fn init_with_logger(logger: T) -> (sh: Shell<T>)
        ensures
            sh.wf(),
            sh.nodes@.len() == 1,
            sh.current == 0,
            file_name(sh.nodes@[0].0).len() == 0,
            sh.nodes@[0].0 matches FileType::Directory { .. },
            sh.nodes@[0].1@ == seq![0usize],
    {
        let mut edge: Edge = Vec::new();
        edge.push(0);
        proof {
            assert(edge@ =~= seq![0usize]);
        }
        let root = FileNode::create_directory(String::new(), edge);
        let mut nodes: Vec<FileNode> = Vec::new();
        nodes.push(root);
        let sh = Shell::new(nodes, 0, 0, logger);
        proof {
            assert(sh.nodes@[0].1@ =~= seq![0usize]);
        }
        sh
    }

    /// The same tree and cursor, reported through another sink; the
    /// arena is copied.
    pub fn replace_logger<R: LoggerRepository>(&self, logger: R) -> (sh: Shell<R>)
        ensures
            sh.nodes@.len() == self.nodes@.len(),
            forall|i: int|
                0 <= i < self.nodes@.len() ==> (#[trigger] sh.nodes@[i]).0 == self.nodes@[i].0
                    && sh.nodes@[i].1@ == self.nodes@[i].1@,
            sh.root == self.root,
            sh.current == self.current,
    {
        let copied = copy_nodes(&self.nodes);
        Shell::new(copied, self.root, self.current, logger)
    }

    /// Runs one command line against the session.
    #[verifier::rlimit(100)]
    pub fn run(&mut self, buffer: &Arg) -> (r: CommandResult)
        requires
            old(self).wf(),
        ensures
            final(self).wf(),
            final(self).root == old(self).root,
            sp_run_holds(
                old(self).nodes@,
                old(self).current as int,
                final(self).nodes@,
                final(self).current as int,
                buffer@,
                match r {
                    Ok(None) => Ok(None),
                    Ok(Some(out)) => Ok(Some(out@)),
                    Err(e) => Err(e@),
                },
            ),
    {
        self.logger.print("run arg");
        self.logger.print(buffer);
        let bv = chars_of(buffer);
        let trimmed = trim_chars(&bv);
        let argv = split_char(&trimmed, ' ');
        let ghost ns0 = self.nodes@;
        let ghost cur0 = self.current as int;
        let ghost args = sp_argv(buffer@);
        proof {
            assert(vv_v(argv@) == args);
            assert(argv@.len() >= 1);
            assert(args.len() == argv@.len());
            assert(args[0] == argv@[0]@);
            if argv@.len() >= 2 {
                assert(args[1] == argv@[1]@);
            }
        }
        let command = &argv[0];
        if command.len() == 0 {
            return Ok(None);
        }
        if eq_lit(command, "ls") {
            let result = ls(&self.nodes, self.current);
            proof {
                assert(sp_run_holds(
                    ns0,
                    cur0,
                    self.nodes@,
                    self.current as int,
                    buffer@,
                    Ok::<Option<Seq<char>>, CommandErrorView>(Some(result@)),
                ));
            }
            Ok(Some(result))
        } else if eq_lit(command, "pwd") {
            let result = pwd(&self.nodes, self.current);
            proof {
                assert(sp_run_holds(
                    ns0,
                    cur0,
                    self.nodes@,
                    self.current as int,
                    buffer@,
                    Ok::<Option<Seq<char>>, CommandErrorView>(Some(result@)),
                ));
            }
            Ok(Some(result))
        } else if eq_lit(command, "cd") {
            if argv.len() < 2 {
                return Err(CommandError::IllegalArgument);
            }
            let arg = &argv[1];
            if eq_lit(arg, "/") {
                self.current = 0;
                proof {
                    assert(sp_run_holds(
                        ns0,
                        cur0,
                        self.nodes@,
                        self.current as int,
                        buffer@,
                        Ok::<Option<Seq<char>>, CommandErrorView>(None),
                    ));
                }
                Ok(None)
            } else if eq_lit(arg, ".") {
                proof {
                    assert(sp_run_holds(
                        ns0,
                        cur0,
                        self.nodes@,
                        self.current as int,
                        buffer@,
                        Ok::<Option<Seq<char>>, CommandErrorView>(None),
                    ));
                }
                Ok(None)
            } else if eq_lit(arg, "..") {
                proof {
                    assert(crate::command::fs_node_ok(self.nodes@, self.current as int));
                }
                self.current = self.nodes[self.current].1[0];
                proof {
                    assert(sp_run_holds(
                        ns0,
                        cur0,
                        self.nodes@,
                        self.current as int,
                        buffer@,
                        Ok::<Option<Seq<char>>, CommandErrorView>(None),
                    ));
                }
                Ok(None)
            } else {
                let target = string_from_chars(arg);
                match find(&self.nodes, self.current, target.as_str()) {
                    Ok(p) => {
                        self.current = p;
                        proof {
                            assert(sp_run_holds(
                                ns0,
                                cur0,
                                self.nodes@,
                                self.current as int,
                                buffer@,
                                Ok::<Option<Seq<char>>, CommandErrorView>(None),
                            ));
                        }
                        Ok(None)
                    },
                    Err(()) => {
                        proof {
                            assert(sp_run_holds(
                                ns0,
                                cur0,
                                self.nodes@,
                                self.current as int,
                                buffer@,
                                Err::<Option<Seq<char>>, CommandErrorView>(
                                    CommandErrorView::NotFound,
                                ),
                            ));
                        }
                        Err(CommandError::NotFound)
                    },
                }
            }
        } else if eq_lit(command, "find") {
            if argv.len() < 2 {
                return Err(CommandError::IllegalArgument);
            }
            let target = string_from_chars(&argv[1]);
            match find(&self.nodes, self.current, target.as_str()) {
                Ok(p) => {
                    let found = self.nodes[p].0.name().clone();
                    proof {
                        assert(sp_run_holds(
                            ns0,
                            cur0,
                            self.nodes@,
                            self.current as int,
                            buffer@,
                            Ok::<Option<Seq<char>>, CommandErrorView>(Some(found@)),
                        ));
                    }
                    Ok(Some(found))
                },
                Err(()) => {
                    proof {
                        assert(sp_run_holds(
                            ns0,
                            cur0,
                            self.nodes@,
                            self.current as int,
                            buffer@,
                            Err::<Option<Seq<char>>, CommandErrorView>(CommandErrorView::NotFound),
                        ));
                    }
                    Err(CommandError::NotFound)
                },
            }
        } else if eq_lit(command, "mkdir") {
            if argv.len() < 2 {
                return Err(CommandError::IllegalArgument);
            }
            let name = string_from_chars(&argv[1]);
            mkdir(&mut self.nodes, self.current, name);
            proof {
                assert(sp_run_holds(
                    ns0,
                    cur0,
                    self.nodes@,
                    self.current as int,
                    buffer@,
                    Ok::<Option<Seq<char>>, CommandErrorView>(None),
                ));
            }
            Ok(None)
        } else if eq_lit(command, "touch") {
            if argv.len() < 2 {
                return Err(CommandError::IllegalArgument);
            }
            let name = string_from_chars(&argv[1]);
            touch(&mut self.nodes, self.current, name, String::new());
            proof {
                assert(sp_run_holds(
                    ns0,
                    cur0,
                    self.nodes@,
                    self.current as int,
                    buffer@,
                    Ok::<Option<Seq<char>>, CommandErrorView>(None),
                ));
            }
            Ok(None)
        } else if eq_lit(command, "read") {
            if argv.len() < 2 {
                return Err(CommandError::IllegalArgument);
            }
            let target = string_from_chars(&argv[1]);
            match find(&self.nodes, self.current, target.as_str()) {
                Ok(p) => match read(&self.nodes, p) {
                    Ok(data) => {
                        proof {
                            assert(sp_run_holds(
                                ns0,
                                cur0,
                                self.nodes@,
                                self.current as int,
                                buffer@,
                                Ok::<Option<Seq<char>>, CommandErrorView>(Some(data@)),
                            ));
                        }
                        Ok(Some(data))
                    },
                    Err(()) => {
                        proof {
                            assert(sp_run_holds(
                                ns0,
                                cur0,
                                self.nodes@,
                                self.current as int,
                                buffer@,
                                Err::<Option<Seq<char>>, CommandErrorView>(
                                    CommandErrorView::NotFile,
                                ),
                            ));
                        }
                        Err(CommandError::NotFile)
                    },
                },
                Err(()) => {
                    proof {
                        assert(sp_run_holds(
                            ns0,
                            cur0,
                            self.nodes@,
                            self.current as int,
                            buffer@,
                            Err::<Option<Seq<char>>, CommandErrorView>(CommandErrorView::NotFound),
                        ));
                    }
                    Err(CommandError::NotFound)
                },
            }
        } else if eq_lit(command, "write") {
            if argv.len() < 2 {
                return Err(CommandError::IllegalArgument);
            }
            let arg = &argv[1];
            let bl = bv.len();
            match rfind_chars(&bv, arg) {
                None => {
                    proof {
                        assert(sp_run_holds(
                            ns0,
                            cur0,
                            self.nodes@,
                            self.current as int,
                            buffer@,
                            Err::<Option<Seq<char>>, CommandErrorView>(
                                CommandErrorView::IllegalArgument,
                            ),
                        ));
                    }
                    Err(CommandError::IllegalArgument)
                },
                Some(ix) => {
                    proof {
                        assert(ix + arg@.len() <= bl);
                    }
                    let j0 = ix + arg.len();
                    let j = crate::text::scan_end_ws(&bv, j0);
                    if j >= bv.len() {
                        proof {
                            assert(sp_run_holds(
                                ns0,
                                cur0,
                                self.nodes@,
                                self.current as int,
                                buffer@,
                                Err::<Option<Seq<char>>, CommandErrorView>(
                                    CommandErrorView::IllegalArgument,
                                ),
                            ));
                        }
                        return Err(CommandError::IllegalArgument);
                    }
                    let data = subvec(&bv, j, bv.len());
                    proof {
                        assert(bv@.subrange(j as int, bv@.len() as int) =~= bv@.skip(j as int));
                    }
                    let data_s = string_from_chars(&data);
                    let target = string_from_chars(arg);
                    match find(&self.nodes, self.current, target.as_str()) {
                        Ok(p) => {
                            let ghost pre = self.nodes@;
                            let wres = crate::command::write(&mut self.nodes, p, data_s.as_str());
                            proof {
                                assert forall|i: int|
                                    0 <= i < self.nodes@.len() implies #[trigger] crate::command::fs_node_ok(
                                    self.nodes@,
                                    i,
                                ) by {
                                    assert(crate::command::fs_node_ok(pre, i));
                                    assert(self.nodes@[i].1@ == pre[i].1@);
                                }
                            }
                            match wres {
                                Ok(()) => {
                                    proof {
                                        assert(sp_run_holds(
                                            ns0,
                                            cur0,
                                            self.nodes@,
                                            self.current as int,
                                            buffer@,
                                            Ok::<Option<Seq<char>>, CommandErrorView>(None),
                                        ));
                                    }
                                    Ok(None)
                                },
                                Err(()) => {
                                    proof {
                                        assert(self.nodes@ =~= pre);
                                        assert(sp_run_holds(
                                            ns0,
                                            cur0,
                                            self.nodes@,
                                            self.current as int,
                                            buffer@,
                                            Err::<Option<Seq<char>>, CommandErrorView>(
                                                CommandErrorView::NotFile,
                                            ),
                                        ));
                                    }
                                    Err(CommandError::NotFile)
                                },
                            }
                        },
                        Err(()) => {
                            proof {
                                assert(sp_run_holds(
                                    ns0,
                                    cur0,
                                    self.nodes@,
                                    self.current as int,
                                    buffer@,
                                    Err::<Option<Seq<char>>, CommandErrorView>(
                                        CommandErrorView::NotFound,
                                    ),
                                ));
                            }
                            Err(CommandError::NotFound)
                        },
                    }
                },
            }
        } else {
            let cmd = string_from_chars(command);
            proof {
                assert(sp_run_holds(
                    ns0,
                    cur0,
                    self.nodes@,
                    self.current as int,
                    buffer@,
                    Err::<Option<Seq<char>>, CommandErrorView>(
                        CommandErrorView::CommandNotFound(cmd@),
                    ),
                ));
            }
            Err(CommandError::CommandNotFound(cmd))
        }
    }
}

/// Compares a word with a literal.
fn eq_lit(v: &Vec<char>, lit: &str) -> (b: bool)
    ensures
        b == (v@ == lit@),
{
    let lv = chars_of(lit);
    chars_eq(v, &lv)
}

/// A field-by-field copy of the arena.
fn copy_nodes(nodes: &Vec<FileNode>) -> (r: Vec<FileNode>)
    ensures
        r@.len() == nodes@.len(),
        forall|i: int|
            0 <= i < nodes@.len() ==> (#[trigger] r@[i]).0 == nodes@[i].0 && r@[i].1@
                == nodes@[i].1@,
{
    let mut out: Vec<FileNode> = Vec::new();
    let mut i: usize = 0;
    while i < nodes.len()
        invariant
            i <= nodes@.len(),
            out@.len() == i,
            forall|j: int|
                0 <= j < i ==> (#[trigger] out@[j]).0 == nodes@[j].0 && out@[j].1@
                    == nodes@[j].1@,
        decreases nodes@.len() - i,
    {
        let t = match &nodes[i].0 {
            FileType::Directory { name } => FileType::Directory { name: name.clone() },
            FileType::File { name, data } => FileType::File {
                name: name.clone(),
                data: data.clone(),
            },
        };
        let mut es: Edge = Vec::new();
        let mut j: usize = 0;
        while j < nodes[i].1.len()
            invariant
                i < nodes@.len(),
                j <= nodes@[i as int].1@.len(),
                es@ =~= nodes@[i as int].1@.subrange(0, j as int),
            decreases nodes@[i as int].1@.len() - j,
        {
            let e = nodes[i].1[j];
            es.push(e);
            proof {
                assert(es@ =~= nodes@[i as int].1@.subrange(0, j as int + 1));
            }
            j += 1;
        }
        proof {
            assert(es@ =~= nodes@[i as int].1@);
        }
        let n = Node(t, es);
        out.push(n);
        i += 1;
    }
    out
}

/// What one command line does: the dispatch over the first word, each
/// branch related to the spec of the command it runs.
pub open spec fn sp_run_holds(
    ns: Seq<FileNode>,
    cur: int,
    ns2: Seq<FileNode>,
    cur2: int,
    buffer: Seq<char>,
    r: Result<Option<Seq<char>>, CommandErrorView>,
) -> bool {
    let args = sp_argv(buffer);
    let cmd = args[0];
    if cmd.len() == 0 {
        r == Ok::<Option<Seq<char>>, CommandErrorView>(None) && ns2 == ns && cur2 == cur
    } else if cmd == "ls"@ {
        r == Ok::<Option<Seq<char>>, CommandErrorView>(
            Some(sp_ls_acc(ns, ns[cur].1@, 1, Seq::empty())),
        ) && ns2 == ns && cur2 == cur
    } else if cmd == "pwd"@ {
        r == Ok::<Option<Seq<char>>, CommandErrorView>(Some(sp_pwd(ns, cur))) && ns2 == ns && cur2
            == cur
    } else if cmd == "cd"@ {
        if args.len() < 2 {
            r == Err::<Option<Seq<char>>, CommandErrorView>(CommandErrorView::IllegalArgument)
                && ns2 == ns && cur2 == cur
        } else if args[1] == "/"@ {
            r == Ok::<Option<Seq<char>>, CommandErrorView>(None) && ns2 == ns && cur2 == 0
        } else if args[1] == "."@ {
            r == Ok::<Option<Seq<char>>, CommandErrorView>(None) && ns2 == ns && cur2 == cur
        } else if args[1] == ".."@ {
            r == Ok::<Option<Seq<char>>, CommandErrorView>(None) && ns2 == ns && cur2 == ns[cur].1@[0]
        } else {
            match sp_find(ns, ns[cur].1@, args[1]) {
                Some(p) => r == Ok::<Option<Seq<char>>, CommandErrorView>(None) && ns2 == ns
                    && cur2 == p,
                None => r == Err::<Option<Seq<char>>, CommandErrorView>(CommandErrorView::NotFound)
                    && ns2 == ns && cur2 == cur,
            }
        }
    } else if cmd == "find"@ {
        ns2 == ns && cur2 == cur && (if args.len() < 2 {
            r == Err::<Option<Seq<char>>, CommandErrorView>(CommandErrorView::IllegalArgument)
        } else {
            match sp_find(ns, ns[cur].1@, args[1]) {
                Some(p) => r == Ok::<Option<Seq<char>>, CommandErrorView>(
                    Some(file_name(ns[p as int].0)),
                ),
                None => r == Err::<Option<Seq<char>>, CommandErrorView>(CommandErrorView::NotFound),
            }
        })
    } else if cmd == "mkdir"@ {
        if args.len() < 2 {
            r == Err::<Option<Seq<char>>, CommandErrorView>(CommandErrorView::IllegalArgument)
                && ns2 == ns && cur2 == cur
        } else {
            r == Ok::<Option<Seq<char>>, CommandErrorView>(None) && cur2 == cur && ns2.len()
                == ns.len() + 1 && (forall|i: int|
                0 <= i < ns.len() && i != cur ==> ns2[i] == ns[i]) && ns2[cur].0 == ns[cur].0
                && ns2[cur].1@ == ns[cur].1@.push(ns.len() as usize) && (ns2[ns.len() as int].0
                matches FileType::Directory { .. }) && file_name(ns2[ns.len() as int].0) == args[1]
                && ns2[ns.len() as int].1@ == seq![cur as usize]
        }
    } else if cmd == "touch"@ {
        if args.len() < 2 {
            r == Err::<Option<Seq<char>>, CommandErrorView>(CommandErrorView::IllegalArgument)
                && ns2 == ns && cur2 == cur
        } else {
            r == Ok::<Option<Seq<char>>, CommandErrorView>(None) && cur2 == cur && ns2.len()
                == ns.len() + 1 && (forall|i: int|
                0 <= i < ns.len() && i != cur ==> ns2[i] == ns[i]) && ns2[cur].0 == ns[cur].0
                && ns2[cur].1@ == ns[cur].1@.push(ns.len() as usize) && (ns2[ns.len() as int].0
                matches FileType::File { .. }) && file_name(ns2[ns.len() as int].0) == args[1]
                && file_data(ns2[ns.len() as int].0).len() == 0 && ns2[ns.len() as int].1@ == seq![
                cur as usize,
            ]
        }
    } else if cmd == "read"@ {
        ns2 == ns && cur2 == cur && (if args.len() < 2 {
            r == Err::<Option<Seq<char>>, CommandErrorView>(CommandErrorView::IllegalArgument)
        } else {
            match sp_find(ns, ns[cur].1@, args[1]) {
                Some(p) => {
                    if ns[p as int].0 matches FileType::File { .. } {
                        r == Ok::<Option<Seq<char>>, CommandErrorView>(
                            Some(file_data(ns[p as int].0)),
                        )
                    } else {
                        r == Err::<Option<Seq<char>>, CommandErrorView>(CommandErrorView::NotFile)
                    }
                },
                None => r == Err::<Option<Seq<char>>, CommandErrorView>(CommandErrorView::NotFound),
            }
        })
    } else if cmd == "write"@ {
        cur2 == cur && (if args.len() < 2 {
            r == Err::<Option<Seq<char>>, CommandErrorView>(CommandErrorView::IllegalArgument)
                && ns2 == ns
        } else {
            match sp_rfind(buffer, args[1]) {
                None => r == Err::<Option<Seq<char>>, CommandErrorView>(
                    CommandErrorView::IllegalArgument,
                ) && ns2 == ns,
                Some(ix) => {
                    let j = run_end(buffer, ix + args[1].len(), ws_p());
                    if j >= buffer.len() {
                        r == Err::<Option<Seq<char>>, CommandErrorView>(
                            CommandErrorView::IllegalArgument,
                        ) && ns2 == ns
                    } else {
                        let data = buffer.skip(j);
                        match sp_find(ns, ns[cur].1@, args[1]) {
                            Some(p) => {
                                if ns[p as int].0 matches FileType::File { .. } {
                                    r == Ok::<Option<Seq<char>>, CommandErrorView>(None)
                                        && ns2.len() == ns.len() && (forall|i: int|
                                        0 <= i < ns.len() && i != p ==> ns2[i] == ns[i]) && ns2[p
                                        as int].1 == ns[p as int].1 && (ns2[p as int].0
                                        matches FileType::File { .. }) && file_name(ns2[p as int].0)
                                        == file_name(ns[p as int].0) && file_data(ns2[p as int].0)
                                        == file_data(ns[p as int].0) + data
                                } else {
                                    r == Err::<Option<Seq<char>>, CommandErrorView>(
                                        CommandErrorView::NotFile,
                                    ) && ns2 == ns
                                }
                            },
                            None => r == Err::<Option<Seq<char>>, CommandErrorView>(
                                CommandErrorView::NotFound,
                            ) && ns2 == ns,
                        }
                    }
                },
            }
        })
    } else {
        r == Err::<Option<Seq<char>>, CommandErrorView>(CommandErrorView::CommandNotFound(cmd))
            && ns2 == ns && cur2 == cur
    }
}

} // verus!
