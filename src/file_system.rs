//! A fake file system held in memory for the length of one session.
//!
//! Every node is kept as an entry keyed by its full path from the root, a
//! sequence of path components. The root directory is implicit. Entries keep
//! the order in which they were created, which is the order `ls` lists them.

use vstd::prelude::*;
use vstd::utf8::is_ascii_chars;
use crate::text::{append_bytes, ascii_bytes, bytes_eq, copy_bytes, str_bytes};

verus! {

/// A path as the sequence of its components.
pub type PathView = Seq<Seq<u8>>;

/// What a node holds: `None` for a directory, `Some(content)` for a file.
pub type NodeView = Option<Seq<u8>>;

/// The entries of a file system, in order of creation.
pub type EntriesView = Seq<(PathView, NodeView)>;

pub const SLASH: u8 = 47;

pub const DOT: u8 = 46;

/// Adds a finished component to `acc`; empty and `.` components are dropped.
pub open spec fn flush_component(acc: PathView, cur: Seq<u8>) -> PathView {
    if cur.len() == 0 || cur == seq![DOT] {
        acc
    } else {
        acc.push(cur)
    }
}

/// Splits `p` at each `/`, given the component `cur` read so far and the
/// components `acc` already finished.
pub open spec fn components_from(p: Seq<u8>, cur: Seq<u8>, acc: PathView) -> PathView
    decreases p.len(),
{
    if p.len() == 0 {
        flush_component(acc, cur)
    } else if p[0] == SLASH {
        components_from(p.drop_first(), Seq::empty(), flush_component(acc, cur))
    } else {
        components_from(p.drop_first(), cur.push(p[0]), acc)
    }
}

/// The components of a path: its parts between slashes, without empty parts
/// and without `.`.
pub open spec fn components(p: Seq<u8>) -> PathView {
    components_from(p, Seq::empty(), Seq::empty())
}

/// `base` extended by `p`: `p` itself when it is absolute, else `p` after a
/// separator.
pub open spec fn join(base: Seq<u8>, p: Seq<u8>) -> Seq<u8> {
    if p.len() > 0 && p[0] == SLASH {
        p
    } else if base.len() == 0 || base.last() == SLASH {
        base + p
    } else {
        base.push(SLASH) + p
    }
}

/// The components of a vector of byte strings.
pub open spec fn path_view(p: Seq<Vec<u8>>) -> PathView {
    p.map_values(|c: Vec<u8>| c@)
}

/// The node stored at path `p`, if an entry holds it.
pub open spec fn entry_at(es: EntriesView, p: PathView) -> Option<NodeView> {
    if exists|i: int| 0 <= i < es.len() && es[i].0 == p {
        Some(es[choose|i: int| 0 <= i < es.len() && es[i].0 == p].1)
    } else {
        None
    }
}

/// Walks path `c` from the root: each component but the last must name a
/// directory, and the last must exist.
pub open spec fn resolve(es: EntriesView, c: PathView) -> Result<NodeView, LsError>
    decreases c.len(),
{
    if c.len() == 0 {
        Ok(None)
    } else {
        match resolve(es, c.drop_last()) {
            Err(e) => Err(e),
            Ok(Some(_)) => Err(LsError::NotDirectory),
            Ok(None) => match entry_at(es, c) {
                None => Err(LsError::NoSuchFileOrDirectory),
                Some(n) => Ok(n),
            },
        }
    }
}

/// The names of the entries directly inside directory `c`, in order of creation.
pub open spec fn children(es: EntriesView, c: PathView) -> Seq<Seq<u8>>
    decreases es.len(),
{
    if es.len() == 0 {
        Seq::empty()
    } else {
        let rest = children(es.drop_last(), c);
        let p = es.last().0;
        if p.len() > 0 && p.drop_last() == c {
            rest.push(p.last())
        } else {
            rest
        }
    }
}

/// The entries after node `n` is stored at path `c`: in place when an entry
/// already holds `c`, else as a new last entry.
pub open spec fn set_entry(es: EntriesView, c: PathView, n: NodeView) -> EntriesView {
    if exists|i: int| 0 <= i < es.len() && es[i].0 == c {
        es.update(choose|i: int| 0 <= i < es.len() && es[i].0 == c, (c, n))
    } else {
        es.push((c, n))
    }
}

/// What writing a file at path `c` leads to.
pub open spec fn write_outcome(es: EntriesView, c: PathView) -> Result<(), LsError> {
    if c.len() == 0 {
        Err(LsError::IsADirectory)
    } else {
        match resolve(es, c.drop_last()) {
            Err(e) => Err(e),
            Ok(Some(_)) => Err(LsError::NotDirectory),
            Ok(None) => match entry_at(es, c) {
                Some(None) => Err(LsError::IsADirectory),
                _ => Ok(()),
            },
        }
    }
}

/// What reading the file at path `c` gives.
pub open spec fn read_outcome(es: EntriesView, c: PathView) -> Result<Seq<u8>, LsError> {
    match resolve(es, c) {
        Err(e) => Err(e),
        Ok(None) => Err(LsError::IsADirectory),
        Ok(Some(b)) => Ok(b),
    }
}

/// Entries are non-empty paths, each held by one entry only.
pub open spec fn entries_wf(es: EntriesView) -> bool {
    &&& forall|i: int| 0 <= i < es.len() ==> (#[trigger] es[i]).0.len() > 0
    &&& forall|i: int, j: int|
        0 <= i < es.len() && 0 <= j < es.len() && i != j ==> (#[trigger] es[i]).0 != (#[trigger] es[j]).0
}

/// Why a file system operation failed.
#[derive(Debug, Clone, Copy, PartialEq, Eq, Structural)]
pub enum LsError {
    NotDirectory,
    NoSuchFileOrDirectory,
    IsADirectory,
    FileExists,
}

impl LsError {
    /// The message a UNIX tool prints for this error.
    pub open spec fn text(self) -> Seq<u8> {
        match self {
            LsError::NoSuchFileOrDirectory => ascii_bytes("No such file or directory"@),
            LsError::NotDirectory => ascii_bytes("Not a directory"@),
            LsError::IsADirectory => ascii_bytes("Is a directory"@),
            LsError::FileExists => ascii_bytes("File exists"@),
        }
    }

    pub fn message(&self) -> (r: Vec<u8>)
        ensures
            r@ == self.text(),
    {
        match self {
            LsError::NoSuchFileOrDirectory => {
                let s = "No such file or directory";
                proof {
                    reveal_strlit("No such file or directory");
                    assert(is_ascii_chars(s@));
                }
                str_bytes(s)
            },
            LsError::NotDirectory => {
                let s = "Not a directory";
                proof {
                    reveal_strlit("Not a directory");
                    assert(is_ascii_chars(s@));
                }
                str_bytes(s)
            },
            LsError::IsADirectory => {
                let s = "Is a directory";
                proof {
                    reveal_strlit("Is a directory");
                    assert(is_ascii_chars(s@));
                }
                str_bytes(s)
            },
            LsError::FileExists => {
                let s = "File exists";
                proof {
                    reveal_strlit("File exists");
                    assert(is_ascii_chars(s@));
                }
                str_bytes(s)
            },
        }
    }
}

/// A node of the file system.
#[derive(Debug)]
pub enum Tree {
    Directory,
    File(Vec<u8>),
}

impl View for Tree {
    type V = NodeView;

    open spec fn view(&self) -> NodeView {
        match self {
            Tree::Directory => None,
            Tree::File(b) => Some(b@),
        }
    }
}

struct Entry {
    path: Vec<Vec<u8>>,
    tree: Tree,
}

/// Splits a path into its components.
pub fn split_components(p: &[u8]) -> (r: Vec<Vec<u8>>)
    ensures
        path_view(r@) == components(p@),
{
    let mut acc: Vec<Vec<u8>> = Vec::new();
    let mut cur: Vec<u8> = Vec::new();
    let mut i: usize = 0;
    assert(p@.skip(0) == p@);
    assert(path_view(acc@) =~= Seq::<Seq<u8>>::empty());
    assert(cur@ =~= Seq::<u8>::empty());
    while i < p.len()
        invariant
            0 <= i <= p@.len(),
            components_from(p@.skip(i as int), cur@, path_view(acc@)) == components(p@),
        decreases p@.len() - i,
    {
        assert(p@.skip(i as int).drop_first() == p@.skip(i + 1));
        if p[i] == SLASH {
            let ghost before = path_view(acc@);
            if cur.len() > 0 && !(cur.len() == 1 && cur[0] == DOT) {
                acc.push(cur);
                assert(path_view(acc@) == before.push(cur@));
            } else {
                assert(cur@.len() == 0 || cur@ == seq![DOT]);
            }
            cur = Vec::new();
        } else {
            cur.push(p[i]);
        }
        i = i + 1;
    }
    assert(p@.skip(i as int) == Seq::<u8>::empty());
    let ghost before = path_view(acc@);
    if cur.len() > 0 && !(cur.len() == 1 && cur[0] == DOT) {
        acc.push(cur);
        assert(path_view(acc@) == before.push(cur@));
    } else {
        assert(cur@.len() == 0 || cur@ == seq![DOT]);
    }
    acc
}

/// Extends `base` by `p` as a path.
pub fn join_path(base: &[u8], p: &[u8]) -> (r: Vec<u8>)
    ensures
        r@ == join(base@, p@),
{
    if p.len() > 0 && p[0] == SLASH {
        copy_bytes(p)
    } else if base.len() == 0 || base[base.len() - 1] == SLASH {
        let mut r = copy_bytes(base);
        append_bytes(&mut r, p);
        r
    } else {
        let mut r = copy_bytes(base);
        r.push(SLASH);
        append_bytes(&mut r, p);
        r
    }
}

/// Whether `p` equals the first `k` components of `c`.
fn path_eq_prefix(p: &Vec<Vec<u8>>, c: &Vec<Vec<u8>>, k: usize) -> (r: bool)
    requires
        k <= c@.len(),
    ensures
        r == (path_view(p@) == path_view(c@).take(k as int)),
{
    if p.len() != k {
        assert(path_view(p@).len() != path_view(c@).take(k as int).len());
        return false;
    }
    let mut i: usize = 0;
    while i < k
        invariant
            p@.len() == k <= c@.len(),
            0 <= i <= k,
            forall|j: int| 0 <= j < i ==> p@[j]@ == c@[j]@,
        decreases k - i,
    {
        if !bytes_eq(p[i].as_slice(), c[i].as_slice()) {
            assert(path_view(p@)[i as int] != path_view(c@).take(k as int)[i as int]);
            return false;
        }
        i = i + 1;
    }
    assert(path_view(p@) =~= path_view(c@).take(k as int));
    true
}

fn copy_path_prefix(c: &Vec<Vec<u8>>, k: usize) -> (r: Vec<Vec<u8>>)
    requires
        k <= c@.len(),
    ensures
        path_view(r@) == path_view(c@).take(k as int),
{
    let mut r: Vec<Vec<u8>> = Vec::new();
    let mut i: usize = 0;
    while i < k
        invariant
            k <= c@.len(),
            0 <= i <= k,
            path_view(r@) == path_view(c@).take(i as int),
        decreases k - i,
    {
        let ghost before = path_view(r@);
        r.push(copy_bytes(c[i].as_slice()));
        assert(path_view(r@) =~= before.push(c@[i as int]@));
        assert(path_view(c@).take(i + 1) =~= path_view(c@).take(i as int).push(c@[i as int]@));
        i = i + 1;
    }
    r
}

/// A fake file system, stored in memory only for the current session.
pub struct FileSystem {
    pwd: Vec<u8>,
    home: Vec<u8>,
    entries: Vec<Entry>,
}

impl FileSystem {
    /// The entries, in order of creation.
    pub closed spec fn entries_view(&self) -> EntriesView {
        self.entries@.map_values(|e: Entry| (path_view(e.path@), e.tree@))
    }

    /// The current working directory.
    pub closed spec fn pwd_view(&self) -> Seq<u8> {
        self.pwd@
    }

    /// The home directory.
    pub closed spec fn home_view(&self) -> Seq<u8> {
        self.home@
    }

    pub open spec fn wf(&self) -> bool {
        entries_wf(self.entries_view())
    }

    /// Where a path given by a user leads from the working directory.
    pub open spec fn canonical(&self, p: Seq<u8>) -> PathView {
        components(join(self.pwd_view(), p))
    }

    /// Looks up the entry at the first `k` components of `c`.
    fn find(&self, c: &Vec<Vec<u8>>, k: usize) -> (r: Option<usize>)
        requires
            self.wf(),
            k <= c@.len(),
        ensures
            match r {
                Some(i) => i < self.entries_view().len() && self.entries_view()[i as int].0
                    == path_view(c@).take(k as int) && entry_at(
                    self.entries_view(),
                    path_view(c@).take(k as int),
                ) == Some(self.entries_view()[i as int].1),
                None => entry_at(self.entries_view(), path_view(c@).take(k as int)).is_none(),
            },
    {
        let ghost es = self.entries_view();
        let ghost q = path_view(c@).take(k as int);
        let mut i: usize = 0;
        while i < self.entries.len()
            invariant
                es == self.entries_view(),
                entries_wf(es),
                k <= c@.len(),
                q == path_view(c@).take(k as int),
                0 <= i <= es.len(),
                forall|j: int| 0 <= j < i ==> es[j].0 != q,
            decreases es.len() - i,
        {
            if path_eq_prefix(&self.entries[i].path, c, k) {
                assert(es[i as int].0 == q);
                let ghost w = choose|w: int| 0 <= w < es.len() && es[w].0 == q;
                assert(w == i);
                return Some(i);
            }
            i = i + 1;
        }
        None
    }

    /// Walks the first `k` components of `c` from the root.
    fn walk(&self, c: &Vec<Vec<u8>>, k: usize) -> (r: Result<Option<usize>, LsError>)
        requires
            self.wf(),
            k <= c@.len(),
        ensures
            match r {
                Err(e) => resolve(self.entries_view(), path_view(c@).take(k as int)) == Err::<
                    NodeView,
                    LsError,
                >(e),
                Ok(None) => k == 0,
                Ok(Some(i)) => i < self.entries_view().len() && self.entries_view()[i as int].0
                    == path_view(c@).take(k as int) && resolve(
                    self.entries_view(),
                    path_view(c@).take(k as int),
                ) == Ok::<NodeView, LsError>(self.entries_view()[i as int].1),
            },
    {
        let ghost es = self.entries_view();
        let ghost cv = path_view(c@);
        let mut cur: Option<usize> = None;
        let mut j: usize = 0;
        assert(cv.take(0) =~= Seq::<Seq<u8>>::empty());
        while j < k
            invariant
                es == self.entries_view(),
                entries_wf(es),
                cv == path_view(c@),
                k <= c@.len(),
                0 <= j <= k,
                match cur {
                    None => j == 0,
                    Some(i) => i < es.len() && es[i as int].0 == cv.take(j as int) && resolve(
                        es,
                        cv.take(j as int),
                    ) == Ok::<NodeView, LsError>(es[i as int].1),
                },
            decreases k - j,
        {
            assert(cv.take(j + 1).drop_last() =~= cv.take(j as int));
            match cur {
                Some(i) => {
                    assert(es[i as int] == (
                        path_view(self.entries@[i as int].path@),
                        self.entries@[i as int].tree@,
                    ));
                    match &self.entries[i].tree {
                        Tree::File(_) => {
                            proof {
                                lemma_resolve_error_persists(es, cv, (j + 1) as nat, k as nat);
                            }
                            return Err(LsError::NotDirectory);
                        },
                        Tree::Directory => {},
                    }
                },
                None => {
                    assert(cv.take(j as int) =~= Seq::<Seq<u8>>::empty());
                },
            }
            match self.find(c, j + 1) {
                None => {
                    proof {
                        lemma_resolve_error_persists(es, cv, (j + 1) as nat, k as nat);
                    }
                    return Err(LsError::NoSuchFileOrDirectory);
                },
                Some(i) => {
                    cur = Some(i);
                },
            }
            j = j + 1;
        }
        Ok(cur)
    }

    /// Whether an entry holds `c`, as a position.
    proof fn lemma_entry_position(es: EntriesView, c: PathView, i: int)
        requires
            entries_wf(es),
            0 <= i < es.len(),
            es[i].0 == c,
        ensures
            entry_at(es, c) == Some(es[i].1),
            (choose|w: int| 0 <= w < es.len() && es[w].0 == c) == i,
    {
    }

    /// A file system for `user`, whose home directory is created and is the
    /// working directory.
    pub fn new(user: &[u8]) -> (r: Self)
        ensures
            r.wf(),
            r.home_view() == home_of(user@),
            r.pwd_view() == home_of(user@),
            r.entries_view() == dirs_along(Seq::empty(), components(home_of(user@))),
    {
        let home = home_path(user);
        let mut this = FileSystem { pwd: copy_bytes(home.as_slice()), home, entries: Vec::new() };
        assert(this.entries_view() =~= Seq::<(PathView, NodeView)>::empty());
        let c = split_components(this.pwd.as_slice());
        this.make_dirs(&c);
        this
    }

    /// Creates every missing directory along `c`; no entry along it is a file.
    fn make_dirs(&mut self, c: &Vec<Vec<u8>>)
        requires
            old(self).wf(),
        ensures
            final(self).wf(),
            final(self).pwd_view() == old(self).pwd_view(),
            final(self).home_view() == old(self).home_view(),
            final(self).entries_view() == dirs_along(old(self).entries_view(), path_view(c@)),
    {
        let ghost es0 = self.entries_view();
        let ghost cv = path_view(c@);
        let mut k: usize = 0;
        while k < c.len()
            invariant
                0 <= k <= c@.len(),
                cv == path_view(c@),
                self.wf(),
                self.pwd_view() == old(self).pwd_view(),
                self.home_view() == old(self).home_view(),
                self.entries_view() == dirs_upto(es0, cv, k as nat),
            decreases c@.len() - k,
        {
            let ghost es = self.entries_view();
            match self.find(c, k + 1) {
                Some(_) => {
                    assert(dirs_upto(es0, cv, (k + 1) as nat) == es);
                },
                None => {
                    let p = copy_path_prefix(c, k + 1);
                    self.entries.push(Entry { path: p, tree: Tree::Directory });
                    assert(self.entries_view() =~= es.push((cv.take(k + 1), None)));
                    proof {
                        lemma_push_new_keeps_wf(es, cv.take(k + 1), None);
                    }
                },
            }
            k = k + 1;
        }
    }

    /// Changes the working directory: back home without an argument, else to
    /// the given path joined onto the current one, without normalising it.
    pub fn cd(&mut self, v: Option<&[u8]>)
        ensures
            final(self).entries_view() == old(self).entries_view(),
            final(self).home_view() == old(self).home_view(),
            final(self).pwd_view() == match v {
                Some(p) => join(old(self).pwd_view(), p@),
                None => old(self).home_view(),
            },
    {
        match v {
            Some(p) => {
                self.pwd = join_path(self.pwd.as_slice(), p);
            },
            None => {
                self.pwd = copy_bytes(self.home.as_slice());
            },
        }
    }

    /// The current working directory.
    pub fn pwd(&self) -> (r: &[u8])
        ensures
            r@ == self.pwd_view(),
    {
        self.pwd.as_slice()
    }

    /// Reads the file at `path`, relative to the working directory.
    pub fn read(&self, path: &[u8]) -> (r: Result<Vec<u8>, LsError>)
        requires
            self.wf(),
        ensures
            match r {
                Ok(b) => read_outcome(self.entries_view(), self.canonical(path@)) == Ok::<
                    Seq<u8>,
                    LsError,
                >(b@),
                Err(e) => read_outcome(self.entries_view(), self.canonical(path@)) == Err::<
                    Seq<u8>,
                    LsError,
                >(e),
            },
    {
        let full = join_path(self.pwd.as_slice(), path);
        let c = split_components(full.as_slice());
        assert(path_view(c@).take(c@.len() as int) =~= path_view(c@));
        match self.walk(&c, c.len()) {
            Err(e) => Err(e),
            Ok(None) => {
                assert(path_view(c@).take(c@.len() as int) =~= path_view(c@));
                Err(LsError::IsADirectory)
            },
            Ok(Some(i)) => {
                assert(path_view(c@).take(c@.len() as int) =~= path_view(c@));
                assert(self.entries_view()[i as int] == (
                    path_view(self.entries@[i as int].path@),
                    self.entries@[i as int].tree@,
                ));
                match &self.entries[i].tree {
                    Tree::Directory => Err(LsError::IsADirectory),
                    Tree::File(b) => {
                        Ok(copy_bytes(b.as_slice()))
                    },
                }
            },
        }
    }
}

impl FileSystem {
    /// Creates every missing directory along `path`, relative to the working
    /// directory. Fails, changing nothing, when a component is a file.
    pub fn mkdirall(&mut self, path: &[u8]) -> (r: Result<(), LsError>)
        requires
            old(self).wf(),
        ensures
            final(self).wf(),
            final(self).pwd_view() == old(self).pwd_view(),
            final(self).home_view() == old(self).home_view(),
            r is Err == exists|k: int|
                1 <= k <= old(self).canonical(path@).len() && #[trigger] file_at(
                    old(self).entries_view(),
                    old(self).canonical(path@).take(k),
                ),
            r is Err ==> r == Err::<(), LsError>(LsError::FileExists) && final(self).entries_view()
                == old(self).entries_view(),
            r is Ok ==> final(self).entries_view() == dirs_along(
                old(self).entries_view(),
                old(self).canonical(path@),
            ),
    {
        let full = join_path(self.pwd.as_slice(), path);
        let c = split_components(full.as_slice());
        let ghost es = self.entries_view();
        let ghost cv = path_view(c@);
        let mut k: usize = 0;
        while k < c.len()
            invariant
                self.wf(),
                es == self.entries_view(),
                cv == path_view(c@),
                cv == old(self).canonical(path@),
                es == old(self).entries_view(),
                0 <= k <= c@.len(),
                forall|m: int| 1 <= m <= k ==> !#[trigger] file_at(es, cv.take(m)),
            decreases c@.len() - k,
        {
            match self.find(&c, k + 1) {
                Some(i) => {
                    assert(es[i as int] == (
                        path_view(self.entries@[i as int].path@),
                        self.entries@[i as int].tree@,
                    ));
                    match &self.entries[i].tree {
                        Tree::File(_) => {
                            assert(file_at(es, cv.take(k + 1)));
                            return Err(LsError::FileExists);
                        },
                        Tree::Directory => {},
                    }
                },
                None => {},
            }
            k = k + 1;
        }
        self.make_dirs(&c);
        Ok(())
    }

    /// Writes `content` as the file at `path`, relative to the working
    /// directory. Its parent must be a directory, and no directory may stand
    /// at `path` itself.
    pub fn write(&mut self, path: &[u8], content: Vec<u8>) -> (r: Result<(), LsError>)
        requires
            old(self).wf(),
        ensures
            final(self).wf(),
            final(self).pwd_view() == old(self).pwd_view(),
            final(self).home_view() == old(self).home_view(),
            r == write_outcome(old(self).entries_view(), old(self).canonical(path@)),
            r is Ok ==> final(self).entries_view() == set_entry(
                old(self).entries_view(),
                old(self).canonical(path@),
                Some(content@),
            ),
            r is Err ==> final(self).entries_view() == old(self).entries_view(),
    {
        let full = join_path(self.pwd.as_slice(), path);
        let c = split_components(full.as_slice());
        let ghost es = self.entries_view();
        let ghost cv = path_view(c@);
        if c.len() == 0 {
            return Err(LsError::IsADirectory);
        }
        let n = c.len();
        assert(cv.take(n - 1) =~= cv.drop_last());
        assert(cv.take(n as int) =~= cv);
        match self.walk(&c, n - 1) {
            Err(e) => {
                return Err(e);
            },
            Ok(None) => {
                assert(cv.drop_last() =~= Seq::<Seq<u8>>::empty());
            },
            Ok(Some(i)) => {
                assert(es[i as int] == (
                    path_view(self.entries@[i as int].path@),
                    self.entries@[i as int].tree@,
                ));
                match &self.entries[i].tree {
                    Tree::File(_) => {
                        return Err(LsError::NotDirectory);
                    },
                    Tree::Directory => {},
                }
            },
        }
        match self.find(&c, n) {
            Some(i) => {
                assert(es[i as int] == (
                    path_view(self.entries@[i as int].path@),
                    self.entries@[i as int].tree@,
                ));
                match &self.entries[i].tree {
                    Tree::Directory => {
                        return Err(LsError::IsADirectory);
                    },
                    Tree::File(_) => {},
                }
                let ghost b = content@;
                proof {
                    FileSystem::lemma_entry_position(es, cv, i as int);
                }
                self.entries.set(i, Entry { path: c, tree: Tree::File(content) });
                assert(self.entries_view() =~= es.update(i as int, (cv, Some(b))));
                assert(entries_wf(self.entries_view())) by {
                    let es2 = self.entries_view();
                    assert forall|x: int, y: int|
                        0 <= x < es2.len() && 0 <= y < es2.len() && x != y implies (
                        #[trigger] es2[x]).0 != (#[trigger] es2[y]).0 by {
                        if x != i && y != i {
                            assert(es2[x] == es[x] && es2[y] == es[y]);
                        } else if x == i {
                            assert(es2[y] == es[y]);
                        } else {
                            assert(es2[x] == es[x]);
                        }
                    }
                    assert forall|x: int| 0 <= x < es2.len() implies (#[trigger] es2[x]).0.len()
                        > 0 by {
                        if x != i {
                            assert(es2[x] == es[x]);
                        }
                    }
                }
            },
            None => {
                let ghost b = content@;
                self.entries.push(Entry { path: c, tree: Tree::File(content) });
                assert(self.entries_view() =~= es.push((cv, Some(b))));
                proof {
                    lemma_push_new_keeps_wf(es, cv, Some(b));
                }
            },
        }
        Ok(())
    }

    /// Lists directory `dir` (the working directory without one): the names
    /// inside it in order of creation, or the given path alone when it is a file.
    pub fn ls(&self, dir: Option<&[u8]>) -> (r: Result<Vec<Vec<u8>>, LsError>)
        requires
            self.wf(),
        ensures
            match r {
                Ok(v) => self.listing(opt_view(dir)) == Ok::<Seq<Seq<u8>>, LsError>(path_view(v@)),
                Err(e) => self.listing(opt_view(dir)) == Err::<Seq<Seq<u8>>, LsError>(e),
            },
    {
        let full = match dir {
            Some(d) => join_path(self.pwd.as_slice(), d),
            None => copy_bytes(self.pwd.as_slice()),
        };
        let c = split_components(full.as_slice());
        let ghost es = self.entries_view();
        let ghost cv = path_view(c@);
        assert(cv.take(c@.len() as int) =~= cv);
        match self.walk(&c, c.len()) {
            Err(e) => Err(e),
            Ok(found) => {
                let is_file = match found {
                    None => false,
                    Some(i) => {
                        assert(es[i as int] == (
                            path_view(self.entries@[i as int].path@),
                            self.entries@[i as int].tree@,
                        ));
                        match &self.entries[i].tree {
                            Tree::File(_) => true,
                            Tree::Directory => false,
                        }
                    },
                };
                if is_file {
                    let shown = match dir {
                        Some(d) => copy_bytes(d),
                        None => copy_bytes(self.pwd.as_slice()),
                    };
                    let mut out: Vec<Vec<u8>> = Vec::new();
                    out.push(shown);
                    assert(path_view(out@) =~= seq![self.ls_shown(opt_view(dir))]);
                    Ok(out)
                } else {
                    Ok(self.children_of(&c))
                }
            },
        }
    }

    /// The names directly inside directory `c`.
    fn children_of(&self, c: &Vec<Vec<u8>>) -> (r: Vec<Vec<u8>>)
        ensures
            path_view(r@) == children(self.entries_view(), path_view(c@)),
    {
        let ghost es = self.entries_view();
        let ghost cv = path_view(c@);
        let mut out: Vec<Vec<u8>> = Vec::new();
        let mut i: usize = 0;
        assert(es.take(0) =~= Seq::<(PathView, NodeView)>::empty());
        assert(path_view(out@) =~= Seq::<Seq<u8>>::empty());
        while i < self.entries.len()
            invariant
                es == self.entries_view(),
                cv == path_view(c@),
                0 <= i <= es.len(),
                path_view(out@) == children(es.take(i as int), cv),
            decreases es.len() - i,
        {
            assert(es.take(i + 1).drop_last() =~= es.take(i as int));
            assert(es[i as int] == (
                path_view(self.entries@[i as int].path@),
                self.entries@[i as int].tree@,
            ));
            let p = &self.entries[i].path;
            if p.len() > 0 && path_eq_prefix(c, p, p.len() - 1) {
                let ghost before = path_view(out@);
                assert(path_view(p@).drop_last() =~= path_view(p@).take(p@.len() - 1));
                out.push(copy_bytes(p[p.len() - 1].as_slice()));
                assert(path_view(out@) =~= before.push(path_view(p@).last()));
            } else if p.len() > 0 {
                assert(path_view(p@).drop_last() =~= path_view(p@).take(p@.len() - 1));
            }
            i = i + 1;
        }
        assert(es.take(es.len() as int) =~= es);
        out
    }

    /// The directory that `ls` lists.
    pub open spec fn ls_target(&self, dir: Option<Seq<u8>>) -> PathView {
        match dir {
            Some(d) => self.canonical(d),
            None => components(self.pwd_view()),
        }
    }

    /// The path as `ls` shows it when it names a file.
    pub open spec fn ls_shown(&self, dir: Option<Seq<u8>>) -> Seq<u8> {
        match dir {
            Some(d) => d,
            None => self.pwd_view(),
        }
    }

    /// What `ls` of `dir` gives.
    pub open spec fn listing(&self, dir: Option<Seq<u8>>) -> Result<Seq<Seq<u8>>, LsError> {
        ls_outcome(self.entries_view(), self.ls_target(dir), self.ls_shown(dir))
    }

    /// What reading `path` gives.
    pub open spec fn read_spec(&self, path: Seq<u8>) -> Result<Seq<u8>, LsError> {
        read_outcome(self.entries_view(), self.canonical(path))
    }
}

pub open spec fn opt_view(dir: Option<&[u8]>) -> Option<Seq<u8>> {
    match dir {
        Some(d) => Some(d@),
        None => None,
    }
}

/// Whether a file stands at path `p`.
pub open spec fn file_at(es: EntriesView, p: PathView) -> bool {
    entry_at(es, p) matches Some(Some(_))
}

/// What `ls` of path `c` gives; `shown` is the path as given.
pub open spec fn ls_outcome(es: EntriesView, c: PathView, shown: Seq<u8>) -> Result<
    Seq<Seq<u8>>,
    LsError,
> {
    match resolve(es, c) {
        Err(e) => Err(e),
        Ok(None) => Ok(children(es, c)),
        Ok(Some(_)) => Ok(seq![shown]),
    }
}

/// The home directory of `user`.
pub open spec fn home_of(user: Seq<u8>) -> Seq<u8> {
    if user == ascii_bytes("root"@) {
        ascii_bytes("/root"@)
    } else {
        join(ascii_bytes("/home"@), user)
    }
}

fn home_path(user: &[u8]) -> (r: Vec<u8>)
    ensures
        r@ == home_of(user@),
{
    proof {
        reveal_strlit("root");
        reveal_strlit("/root");
        reveal_strlit("/home");
        assert(is_ascii_chars("root"@));
        assert(is_ascii_chars("/root"@));
        assert(is_ascii_chars("/home"@));
    }
    let root = str_bytes("root");
    if bytes_eq(user, root.as_slice()) {
        str_bytes("/root")
    } else {
        let home = str_bytes("/home");
        join_path(home.as_slice(), user)
    }
}

/// The entries after each missing directory among the first `k` prefixes of
/// `c` has been added, in order.
pub open spec fn dirs_upto(es: EntriesView, c: PathView, k: nat) -> EntriesView
    decreases k,
{
    if k == 0 {
        es
    } else {
        let before = dirs_upto(es, c, (k - 1) as nat);
        if entry_at(before, c.take(k as int)).is_some() {
            before
        } else {
            before.push((c.take(k as int), None))
        }
    }
}

/// The entries after every missing directory along `c` has been added.
pub open spec fn dirs_along(es: EntriesView, c: PathView) -> EntriesView {
    dirs_upto(es, c, c.len())
}

proof fn lemma_push_new_keeps_wf(es: EntriesView, c: PathView, n: NodeView)
    requires
        entries_wf(es),
        c.len() > 0,
        entry_at(es, c).is_none(),
    ensures
        entries_wf(es.push((c, n))),
{
    let es2 = es.push((c, n));
    assert forall|i: int, j: int|
        0 <= i < es2.len() && 0 <= j < es2.len() && i != j implies (#[trigger] es2[i]).0 != (
        #[trigger] es2[j]).0 by {
        if i < es.len() && j < es.len() {
            assert(es2[i] == es[i] && es2[j] == es[j]);
        } else if i < es.len() {
            assert(es2[i] == es[i]);
        } else {
            assert(es2[j] == es[j]);
        }
    }
    assert forall|i: int| 0 <= i < es2.len() implies (#[trigger] es2[i]).0.len() > 0 by {
        if i < es.len() {
            assert(es2[i] == es[i]);
        }
    }
}

/// Once a walk fails, walking further along the same path fails the same way.
proof fn lemma_resolve_error_persists(es: EntriesView, c: PathView, j: nat, k: nat)
    requires
        j <= k <= c.len(),
        resolve(es, c.take(j as int)) is Err,
    ensures
        resolve(es, c.take(k as int)) == resolve(es, c.take(j as int)),
    decreases k - j,
{
    if k > j {
        lemma_resolve_error_persists(es, c, j, (k - 1) as nat);
        assert(c.take(k as int).drop_last() =~= c.take(k - 1));
    }
}

/// Storing a node at `c` changes what stands at `c` and nothing else, and
/// keeps the entries well formed.
pub proof fn lemma_set_entry_at(es: EntriesView, c: PathView, n: NodeView, q: PathView)
    requires
        entries_wf(es),
        c.len() > 0,
    ensures
        entries_wf(set_entry(es, c, n)),
        entry_at(set_entry(es, c, n), q) == if q == c {
            Some(n)
        } else {
            entry_at(es, q)
        },
{
    let es2 = set_entry(es, c, n);
    if exists|i: int| 0 <= i < es.len() && es[i].0 == c {
        let i = choose|i: int| 0 <= i < es.len() && es[i].0 == c;
        assert(es2 == es.update(i, (c, n)));
        assert forall|x: int, y: int|
            0 <= x < es2.len() && 0 <= y < es2.len() && x != y implies (#[trigger] es2[x]).0 != (
            #[trigger] es2[y]).0 by {
            if x != i && y != i {
                assert(es2[x] == es[x] && es2[y] == es[y]);
            } else if x == i {
                assert(es2[y] == es[y]);
            } else {
                assert(es2[x] == es[x]);
            }
        }
        assert forall|x: int| 0 <= x < es2.len() implies (#[trigger] es2[x]).0.len() > 0 by {
            if x != i {
                assert(es2[x] == es[x]);
            }
        }
        if q == c {
            FileSystem::lemma_entry_position(es2, c, i);
        } else if exists|j: int| 0 <= j < es.len() && es[j].0 == q {
            let j = choose|j: int| 0 <= j < es.len() && es[j].0 == q;
            assert(es2[j] == es[j]);
            FileSystem::lemma_entry_position(es, q, j);
            FileSystem::lemma_entry_position(es2, q, j);
        } else {
            assert forall|j: int| 0 <= j < es2.len() implies es2[j].0 != q by {
                if j != i {
                    assert(es2[j] == es[j]);
                }
            }
        }
    } else {
        assert(es2 == es.push((c, n)));
        lemma_push_new_keeps_wf(es, c, n);
        if q == c {
            FileSystem::lemma_entry_position(es2, c, es.len() as int);
        } else if exists|j: int| 0 <= j < es.len() && es[j].0 == q {
            let j = choose|j: int| 0 <= j < es.len() && es[j].0 == q;
            assert(es2[j] == es[j]);
            FileSystem::lemma_entry_position(es, q, j);
            FileSystem::lemma_entry_position(es2, q, j);
        } else {
            assert forall|j: int| 0 <= j < es2.len() implies es2[j].0 != q by {
                if j < es.len() {
                    assert(es2[j] == es[j]);
                }
            }
        }
    }
}

/// A walk along `x` goes the same way in two file systems that agree on
/// every prefix of `x`.
pub proof fn lemma_resolve_frame(es: EntriesView, es2: EntriesView, x: PathView)
    requires
        forall|k: int| 1 <= k <= x.len() ==> entry_at(es2, #[trigger] x.take(k)) == entry_at(es, x.take(k)),
    ensures
        resolve(es2, x) == resolve(es, x),
    decreases x.len(),
{
    if x.len() > 0 {
        let y = x.drop_last();
        assert forall|k: int| 1 <= k <= y.len() implies entry_at(es2, #[trigger] y.take(k)) == entry_at(
            es,
            y.take(k),
        ) by {
            assert(y.take(k) == x.take(k));
        }
        lemma_resolve_frame(es, es2, y);
        assert(x.take(x.len() as int) == x);
    }
}

/// A name is listed in directory `d` exactly when an entry stands at `d`
/// followed by that name.
pub proof fn lemma_children_exact(es: EntriesView, d: PathView, name: Seq<u8>)
    ensures
        children(es, d).contains(name) <==> exists|i: int|
            0 <= i < es.len() && es[i].0 == d.push(name),
    decreases es.len(),
{
    if es.len() > 0 {
        let init = es.drop_last();
        lemma_children_exact(init, d, name);
        let p = es.last().0;
        let rest = children(init, d);
        if exists|i: int| 0 <= i < es.len() && es[i].0 == d.push(name) {
            let i = choose|i: int| 0 <= i < es.len() && es[i].0 == d.push(name);
            if i == es.len() - 1 {
                assert(p.drop_last() == d);
                assert(p.last() == name);
                assert(children(es, d) == rest.push(name));
                assert(children(es, d)[rest.len() as int] == name);
            } else {
                assert(init[i] == es[i]);
                let w = choose|w: int| 0 <= w < rest.len() && rest[w] == name;
                if p.len() > 0 && p.drop_last() == d {
                    assert(children(es, d)[w] == name);
                }
            }
        } else {
            assert forall|i: int| 0 <= i < init.len() implies init[i].0 != d.push(name) by {
                assert(init[i] == es[i]);
            }
            if p.len() > 0 && p.drop_last() == d {
                assert(p != d.push(name));
                assert(p == d.push(p.last()));
                if children(es, d).contains(name) {
                    let w = choose|w: int| 0 <= w < children(es, d).len() && children(es, d)[w] == name;
                    if w < rest.len() {
                        assert(rest[w] == name);
                    }
                }
            }
        }
    }
}

/// After a successful write of `b` at `c`, reading `c` gives `b`, the name
/// is listed in its directory, and every other path holds what it held.
pub proof fn law_read_after_write(es: EntriesView, c: PathView, b: Seq<u8>, q: PathView)
    requires
        entries_wf(es),
        write_outcome(es, c) is Ok,
    ensures
        entries_wf(set_entry(es, c, Some(b))),
        read_outcome(set_entry(es, c, Some(b)), c) == Ok::<Seq<u8>, LsError>(b),
        children(set_entry(es, c, Some(b)), c.drop_last()).contains(c.last()),
        q != c ==> entry_at(set_entry(es, c, Some(b)), q) == entry_at(es, q),
{
    let es2 = set_entry(es, c, Some(b));
    lemma_set_entry_at(es, c, Some(b), q);
    lemma_set_entry_at(es, c, Some(b), c);
    let y = c.drop_last();
    assert forall|k: int| 1 <= k <= y.len() implies entry_at(es2, #[trigger] y.take(k)) == entry_at(
        es,
        y.take(k),
    ) by {
        lemma_set_entry_at(es, c, Some(b), y.take(k));
    }
    lemma_resolve_frame(es, es2, y);
    assert(c == y.push(c.last()));
    let i = choose|i: int| 0 <= i < es2.len() && es2[i].0 == c;
    lemma_children_exact(es2, y, c.last());
}

} // verus!
