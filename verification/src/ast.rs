//! The command tree: what the parser hands the engine.
//!
//! A [`Cmd`] is built once per input line and consumed by one execution
//! pass.  The only parts of it the engine ever rewrites are the two
//! descriptor cells of each [`Simple`] node, during descriptor
//! reconciliation.

use vstd::prelude::*;

verus! {

/// Where one of a simple command's standard streams reads from or writes to.
///
/// `Stdin`, `Stdout` and `Stderr` are the defaults: the corresponding stream
/// the interpreter's own process inherited.  `FileIn` / `FileOut` are
/// explicit file redirections put in place by the parser.  `PipeIn(p)` and
/// `PipeOut(p)` are the read and the write end of the pipe opened by the
/// engine's `OpenPipe` action with id `p`; only the engine binds these.
#[derive(Debug, Clone, PartialEq, Eq)]
pub enum Fd {
    Stdin,
    Stdout,
    Stderr,
    PipeIn(usize),
    PipeOut(usize),
    FileIn(String),
    FileOut(String),
}

/// One command: program name, arguments, optional environment overlay to be
/// merged into the child's inherited environment, and the two descriptor
/// cells for its standard input and output.
///
/// There is deliberately no cell for standard error: per-command stderr
/// redirection is not supported, and a child's stderr always stays the
/// inherited stream.
#[derive(Debug, Clone, PartialEq, Eq)]
pub struct Simple {
    pub cmd: String,
    pub args: Vec<String>,
    pub env: Option<Vec<(String, String)>>,
    pub stdin: Fd,
    pub stdout: Fd,
}

/// A parsed command line: simple commands combined by pipes, `&&` / `||`
/// lists and negation.  The tree is finite and acyclic by construction.
#[derive(Debug, PartialEq, Eq)]
pub enum Cmd {
    Simple(Simple),
    Pipeline(Box<Cmd>, Box<Cmd>),
    And(Box<Cmd>, Box<Cmd>),
    Or(Box<Cmd>, Box<Cmd>),
    Not(Box<Cmd>),
    Empty,
}

/// Copy of a descriptor, equal to the original as a value.
pub fn fd_dup(f: &Fd) -> (r: Fd)
    ensures
        r == *f,
{
    match f {
        Fd::Stdin => Fd::Stdin,
        Fd::Stdout => Fd::Stdout,
        Fd::Stderr => Fd::Stderr,
        Fd::PipeIn(p) => Fd::PipeIn(*p),
        Fd::PipeOut(p) => Fd::PipeOut(*p),
        Fd::FileIn(path) => Fd::FileIn(path.clone()),
        Fd::FileOut(path) => Fd::FileOut(path.clone()),
    }
}

/// Copy of an argument list whose elements are equal to the originals.
pub fn strings_dup(v: &Vec<String>) -> (r: Vec<String>)
    ensures
        r@ == v@,
{
    let mut out: Vec<String> = Vec::new();
    let mut i: usize = 0;
    while i < v.len()
        invariant
            i <= v.len(),
            out@ == v@.subrange(0, i as int),
        decreases v.len() - i,
    {
        out.push(v[i].clone());
        proof {
            assert(out@ =~= v@.subrange(0, i + 1 as int));
        }
        i = i + 1;
    }
    proof {
        assert(out@ =~= v@);
    }
    out
}

/// Copy of an environment overlay whose entries are equal to the originals.
pub fn env_dup(e: &Option<Vec<(String, String)>>) -> (r: Option<Vec<(String, String)>>)
    ensures
        match (e, r) {
            (Some(ev), Some(rv)) => rv@ == ev@,
            (None, None) => true,
            _ => false,
        },
{
    match e {
        None => None,
        Some(pairs) => {
            let mut out: Vec<(String, String)> = Vec::new();
            let mut i: usize = 0;
            while i < pairs.len()
                invariant
                    i <= pairs.len(),
                    out@ == pairs@.subrange(0, i as int),
                decreases pairs.len() - i,
            {
                let name = pairs[i].0.clone();
                let value = pairs[i].1.clone();
                out.push((name, value));
                proof {
                    assert(out@ =~= pairs@.subrange(0, i + 1 as int));
                }
                i = i + 1;
            }
            proof {
                assert(out@ =~= pairs@);
            }
            Some(out)
        },
    }
}

} // verus!
