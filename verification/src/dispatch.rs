//! The table of system calls: which names a guest may import, and what
//! stands behind every import of a module.

use vstd::prelude::*;

verus! {

/// A system call that this host answers.
#[derive(Copy, Clone, Debug, PartialEq, Eq, Structural)]
pub enum Syscall {
    ArgsGet,
    ArgsSizesGet,
    ClockTimeGet,
    EnvironSizesGet,
    PathOpen,
    FdPrestatGet,
    FdPrestatDirName,
    FdFdstatGet,
    FdWrite,
    FdSeek,
    FdRead,
    FdClose,
}

/// The name of the module that the system calls are imported from.
pub open spec fn spec_module_name() -> Seq<char> {
    "wasi_snapshot_preview1"@
}

/// The name of the module that the system calls are imported from.
pub fn module_name() -> (name: &'static str)
    ensures
        name@ == spec_module_name(),
{
    "wasi_snapshot_preview1"
}

/// Whether two texts are the same.
pub fn same_text(a: &str, b: &str) -> (same: bool)
    ensures
        same == (a@ == b@),
{
    let left = a.to_owned();
    let right = b.to_owned();
    left == right
}

impl Syscall {
    /// The name under which a guest imports this call.
    pub open spec fn spec_name(self) -> Seq<char> {
        match self {
            Syscall::ArgsGet => "args_get"@,
            Syscall::ArgsSizesGet => "args_sizes_get"@,
            Syscall::ClockTimeGet => "clock_time_get"@,
            Syscall::EnvironSizesGet => "environ_sizes_get"@,
            Syscall::PathOpen => "path_open"@,
            Syscall::FdPrestatGet => "fd_prestat_get"@,
            Syscall::FdPrestatDirName => "fd_prestat_dir_name"@,
            Syscall::FdFdstatGet => "fd_fdstat_get"@,
            Syscall::FdWrite => "fd_write"@,
            Syscall::FdSeek => "fd_seek"@,
            Syscall::FdRead => "fd_read"@,
            Syscall::FdClose => "fd_close"@,
        }
    }

    /// The name under which a guest imports this call.
    pub fn name(self) -> (name: &'static str)
        ensures
            name@ == self.spec_name(),
    {
        match self {
            Syscall::ArgsGet => "args_get",
            Syscall::ArgsSizesGet => "args_sizes_get",
            Syscall::ClockTimeGet => "clock_time_get",
            Syscall::EnvironSizesGet => "environ_sizes_get",
            Syscall::PathOpen => "path_open",
            Syscall::FdPrestatGet => "fd_prestat_get",
            Syscall::FdPrestatDirName => "fd_prestat_dir_name",
            Syscall::FdFdstatGet => "fd_fdstat_get",
            Syscall::FdWrite => "fd_write",
            Syscall::FdSeek => "fd_seek",
            Syscall::FdRead => "fd_read",
            Syscall::FdClose => "fd_close",
        }
    }

    /// The call that goes by `name`, if this host answers it.
    pub open spec fn spec_from_name(name: Seq<char>) -> Option<Syscall> {
        if name == Syscall::ArgsGet.spec_name() {
            Some(Syscall::ArgsGet)
        } else if name == Syscall::ArgsSizesGet.spec_name() {
            Some(Syscall::ArgsSizesGet)
        } else if name == Syscall::ClockTimeGet.spec_name() {
            Some(Syscall::ClockTimeGet)
        } else if name == Syscall::EnvironSizesGet.spec_name() {
            Some(Syscall::EnvironSizesGet)
        } else if name == Syscall::PathOpen.spec_name() {
            Some(Syscall::PathOpen)
        } else if name == Syscall::FdPrestatGet.spec_name() {
            Some(Syscall::FdPrestatGet)
        } else if name == Syscall::FdPrestatDirName.spec_name() {
            Some(Syscall::FdPrestatDirName)
        } else if name == Syscall::FdFdstatGet.spec_name() {
            Some(Syscall::FdFdstatGet)
        } else if name == Syscall::FdWrite.spec_name() {
            Some(Syscall::FdWrite)
        } else if name == Syscall::FdSeek.spec_name() {
            Some(Syscall::FdSeek)
        } else if name == Syscall::FdRead.spec_name() {
            Some(Syscall::FdRead)
        } else if name == Syscall::FdClose.spec_name() {
            Some(Syscall::FdClose)
        } else {
            None
        }
    }

    /// Finds the call that goes by `name`.
    pub fn from_name(name: &str) -> (res: Option<Syscall>)
        ensures
            res == Syscall::spec_from_name(name@),
    {
        if same_text(name, Syscall::ArgsGet.name()) {
            Some(Syscall::ArgsGet)
        } else if same_text(name, Syscall::ArgsSizesGet.name()) {
            Some(Syscall::ArgsSizesGet)
        } else if same_text(name, Syscall::ClockTimeGet.name()) {
            Some(Syscall::ClockTimeGet)
        } else if same_text(name, Syscall::EnvironSizesGet.name()) {
            Some(Syscall::EnvironSizesGet)
        } else if same_text(name, Syscall::PathOpen.name()) {
            Some(Syscall::PathOpen)
        } else if same_text(name, Syscall::FdPrestatGet.name()) {
            Some(Syscall::FdPrestatGet)
        } else if same_text(name, Syscall::FdPrestatDirName.name()) {
            Some(Syscall::FdPrestatDirName)
        } else if same_text(name, Syscall::FdFdstatGet.name()) {
            Some(Syscall::FdFdstatGet)
        } else if same_text(name, Syscall::FdWrite.name()) {
            Some(Syscall::FdWrite)
        } else if same_text(name, Syscall::FdSeek.name()) {
            Some(Syscall::FdSeek)
        } else if same_text(name, Syscall::FdRead.name()) {
            Some(Syscall::FdRead)
        } else if same_text(name, Syscall::FdClose.name()) {
            Some(Syscall::FdClose)
        } else {
            None
        }
    }
}

/// Every call is found again by its own name.
pub proof fn lemma_names_are_apart(call: Syscall)
    ensures
        Syscall::spec_from_name(call.spec_name()) == Some(call),
{
    reveal_strlit("args_get");
    reveal_strlit("args_sizes_get");
    reveal_strlit("clock_time_get");
    reveal_strlit("environ_sizes_get");
    reveal_strlit("path_open");
    reveal_strlit("fd_prestat_get");
    reveal_strlit("fd_prestat_dir_name");
    reveal_strlit("fd_fdstat_get");
    reveal_strlit("fd_write");
    reveal_strlit("fd_seek");
    reveal_strlit("fd_read");
    reveal_strlit("fd_close");
    assert("args_get"@.len() == 8 && "args_get"@[0] == 'a');
    assert("args_sizes_get"@.len() == 14 && "args_sizes_get"@[0] == 'a');
    assert("clock_time_get"@.len() == 14 && "clock_time_get"@[0] == 'c');
    assert("environ_sizes_get"@.len() == 17);
    assert("path_open"@.len() == 9);
    assert("fd_prestat_get"@.len() == 14 && "fd_prestat_get"@[0] == 'f');
    assert("fd_prestat_dir_name"@.len() == 19);
    assert("fd_fdstat_get"@.len() == 13);
    assert("fd_write"@.len() == 8 && "fd_write"@[0] == 'f' && "fd_write"@[3] == 'w');
    assert("fd_seek"@.len() == 7 && "fd_seek"@[3] == 's');
    assert("fd_read"@.len() == 7 && "fd_read"@[3] == 'r');
    assert("fd_close"@.len() == 8 && "fd_close"@[0] == 'f' && "fd_close"@[3] == 'c');
}

/// What kind of thing a module imports.
#[derive(Copy, Clone, Debug, PartialEq, Eq, Structural)]
pub enum ImportKind {
    Function,
    Global,
    Table,
    Memory,
}

/// One import of a module.
pub struct Import {
    pub module: String,
    pub name: String,
    pub kind: ImportKind,
}

/// What stands behind an import.
#[derive(Debug, PartialEq, Eq)]
pub enum Resolution {
    /// A system call of this host.
    Host(Syscall),
    /// A function that fails when it is called, with this text: the module
    /// and the name of the import.
    Shim(String),
}

/// The text with which the shim for an import fails: module, colon, name.
pub open spec fn shim_text(module: Seq<char>, name: Seq<char>) -> Seq<char> {
    module + ":"@ + name
}

/// `format!` on the two names of an import: the module, a colon, the name.
#[verifier::external_body]
fn import_path(module: &str, name: &str) -> (path: String)
    ensures
        path@ == shim_text(module@, name@),
{
    format!("{}:{}", module, name)
}

/// What stands behind the import `name` of kind `kind` from `module`: the
/// system call of that name, where the module is the one of the system
/// calls and this host answers the call; else, for a function, a shim.
/// Nothing can stand in for an import that is no function.
pub open spec fn spec_resolve(module: Seq<char>, name: Seq<char>, kind: ImportKind) -> Option<
    Result<Syscall, Seq<char>>,
> {
    if module == spec_module_name() && Syscall::spec_from_name(name) is Some {
        Some(Ok(Syscall::spec_from_name(name)->Some_0))
    } else if kind == ImportKind::Function {
        Some(Err(shim_text(module, name)))
    } else {
        None
    }
}

/// A resolution by its text.
pub open spec fn resolution_view(r: Resolution) -> Result<Syscall, Seq<char>> {
    match r {
        Resolution::Host(call) => Ok(call),
        Resolution::Shim(text) => Err(text@),
    }
}

/// Decides what stands behind one import.
pub fn resolve(import: &Import) -> (res: Option<Resolution>)
    ensures
        match res {
            Some(r) => spec_resolve(import.module@, import.name@, import.kind) == Some(
                resolution_view(r),
            ),
            None => spec_resolve(import.module@, import.name@, import.kind) is None,
        },
{
    if same_text(import.module.as_str(), module_name()) {
        match Syscall::from_name(import.name.as_str()) {
            Some(call) => { return Some(Resolution::Host(call)); },
            None => {},
        }
    }
    match import.kind {
        ImportKind::Function => Some(
            Resolution::Shim(import_path(import.module.as_str(), import.name.as_str())),
        ),
        _ => None,
    }
}

/// The first of `imports` for which nothing can stand in, if there is one.
pub open spec fn first_unresolved(imports: Seq<Import>) -> Option<int>
    decreases imports.len(),
{
    if imports.len() == 0 {
        None
    } else {
        match first_unresolved(imports.drop_last()) {
            Some(i) => Some(i),
            None => if spec_resolve(
                imports.last().module@,
                imports.last().name@,
                imports.last().kind,
            ) is None {
                Some(imports.len() - 1)
            } else {
                None
            },
        }
    }
}

/// The first import without a stand-in among the first `n` is the first
/// among all.
pub proof fn lemma_first_unresolved_stays(imports: Seq<Import>, n: int)
    requires
        0 <= n <= imports.len(),
        first_unresolved(imports.take(n)) is Some,
    ensures
        first_unresolved(imports) == first_unresolved(imports.take(n)),
    decreases imports.len() - n,
{
    if n < imports.len() {
        assert(imports.take(n + 1).drop_last() =~= imports.take(n));
        lemma_first_unresolved_stays(imports, n + 1);
    } else {
        assert(imports.take(n) =~= imports);
    }
}

/// Decides what stands behind every import of a module, in the order of the
/// imports. Where nothing can stand in for one, the first such import is
/// reported by its place, and nothing is resolved.
pub fn resolve_all(imports: &Vec<Import>) -> (res: Result<Vec<Resolution>, usize>)
    ensures
        match res {
            Ok(table) => {
                &&& first_unresolved(imports@) is None
                &&& table@.len() == imports@.len()
                &&& forall|k: int|
                    0 <= k < imports@.len() ==> spec_resolve(
                        imports@[k].module@,
                        imports@[k].name@,
                        imports@[k].kind,
                    ) == Some(resolution_view(#[trigger] table@[k]))
            },
            Err(at) => first_unresolved(imports@) == Some(at as int),
        },
{
    let mut table: Vec<Resolution> = Vec::new();
    let mut i: usize = 0;
    proof {
        assert(imports@.take(0) =~= Seq::<Import>::empty());
    }
    while i < imports.len()
        invariant
            i <= imports@.len(),
            table@.len() == i,
            first_unresolved(imports@.take(i as int)) is None,
            forall|k: int|
                0 <= k < i ==> spec_resolve(
                    imports@[k].module@,
                    imports@[k].name@,
                    imports@[k].kind,
                ) == Some(resolution_view(#[trigger] table@[k])),
        decreases imports@.len() - i,
    {
        proof {
            assert(imports@.take(i + 1).drop_last() =~= imports@.take(i as int));
            assert(imports@.take(i + 1).last() == imports@[i as int]);
        }
        match resolve(&imports[i]) {
            None => {
                proof {
                    lemma_first_unresolved_stays(imports@, i + 1);
                }
                return Err(i);
            },
            Some(r) => {
                table.push(r);
            },
        }
        i = i + 1;
    }
    proof {
        assert(imports@.take(i as int) =~= imports@);
    }
    Ok(table)
}

} // verus!
