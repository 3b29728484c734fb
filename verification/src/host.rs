//! The plugin host's bookkeeping.
//!
//! The host loads every shared library in its directory, calls each one's
//! lifecycle hooks, and hot-reloads a library when its file changes. The
//! dynamic loading and the filesystem watching live outside this crate; this
//! module holds the registry of loaded plugins and decides, for each
//! filesystem event, which hooks to call and how the registry changes.

use vstd::prelude::*;
use vstd::string::StrSliceExecFns;

verus! {

/// A filesystem event kind the watcher reports for the library directory.
#[derive(Debug, Clone, Copy, PartialEq, Eq, Structural)]
pub enum FsEventKind {
    Create,
    Modify,
    Remove,
    Other,
}

/// A lifecycle hook the host must call on a plugin handle, in list order.
#[derive(Debug, Clone, Copy, PartialEq, Eq, Structural)]
pub enum HostAction {
    /// Call `shutdown` on the plugin behind this handle and drop it.
    ShutdownPlugin(u64),
    /// Call `init` on the plugin behind this handle.
    InitPlugin(u64),
    /// Call `start` on the plugin behind this handle.
    StartPlugin(u64),
}

/// Whether a path names a shared library: it ends in `.so`.
pub open spec fn spec_is_library_path(p: Seq<char>) -> bool {
    p.len() >= 3 && p.subrange(p.len() - 3, p.len() as int) == ".so"@
}

/// Checks whether a path names a shared library.
pub fn is_library_path(path: &String) -> (r: bool)
    ensures
        r == spec_is_library_path(path@),
{
    let n = path.as_str().unicode_len();
    if n < 3 {
        return false;
    }
    let tail = path.as_str().substring_char(n - 3, n);
    proof {
        reveal_strlit(".so");
    }
    let dot = ".so";
    let r = tail.unicode_len() == 3 && tail.get_char(0) == dot.get_char(0) && tail.get_char(1)
        == dot.get_char(1) && tail.get_char(2) == dot.get_char(2);
    proof {
        if r {
            assert(tail@ =~= ".so"@);
        }
        if path@.subrange(path@.len() - 3, path@.len() as int) == ".so"@ {
            assert(tail@ == ".so"@);
        }
    }
    r
}

/// The loaded plugins: each library path with the handle loaded from it.
pub struct PluginRegistry {
    plugins: Vec<(String, u64)>,
}

impl View for PluginRegistry {
    type V = Seq<(Seq<char>, u64)>;

    closed spec fn view(&self) -> Seq<(Seq<char>, u64)> {
        self.plugins@.map_values(|e: (String, u64)| (e.0@, e.1))
    }
}

/// A plugin is loaded from `path` with handle `h`.
pub open spec fn loaded_at(v: Seq<(Seq<char>, u64)>, path: Seq<char>, h: u64) -> bool {
    exists|i: int| 0 <= i < v.len() && v[i] == (path, h)
}

/// Some plugin is loaded from `path`.
pub open spec fn has_plugin(v: Seq<(Seq<char>, u64)>, path: Seq<char>) -> bool {
    exists|i: int| 0 <= i < v.len() && (#[trigger] v[i]).0 == path
}

/// Registry paths are unique: one plugin per library file.
pub open spec fn registry_paths_distinct(v: Seq<(Seq<char>, u64)>) -> bool {
    forall|i: int, j: int|
        0 <= i < v.len() && 0 <= j < v.len() && i != j ==> (#[trigger] v[i]).0 != (
        #[trigger] v[j]).0
}

impl PluginRegistry {
    /// A host with nothing loaded.
    pub fn new() -> (r: PluginRegistry)
        ensures
            registry_paths_distinct(r@),
            r@.len() == 0,
    {
        let r = PluginRegistry { plugins: Vec::new() };
        proof {
            assert(r@ =~= Seq::<(Seq<char>, u64)>::empty());
        }
        r
    }

    /// The position of `path` in the registry, where present.
    fn find_path(&self, path: &String) -> (r: Option<usize>)
        ensures
            match r {
                Some(i) => i < self@.len() && self@[i as int].0 == path@,
                None => !has_plugin(self@, path@),
            },
    {
        let mut i: usize = 0;
        while i < self.plugins.len()
            invariant
                0 <= i <= self@.len(),
                self@.len() == self.plugins@.len(),
                forall|j: int| 0 <= j < i ==> (#[trigger] self@[j]).0 != path@,
            decreases self@.len() - i,
        {
            if self.plugins[i].0 == *path {
                return Some(i);
            }
            i += 1;
        }
        None
    }

    /// Decides what a filesystem event in the library directory means.
    ///
    /// A created or modified library file replaces any plugin already loaded
    /// from that path — the old handle is shut down first — and the new
    /// handle is initialized and started. A removed library file shuts its
    /// plugin down and forgets it. Anything else changes nothing.
    pub fn on_fs_event(&mut self, kind: FsEventKind, path: &String, new_handle: u64) -> (actions:
        Vec<HostAction>)
        requires
            registry_paths_distinct(old(self)@),
        ensures
            registry_paths_distinct(final(self)@),
            !spec_is_library_path(path@) || kind == FsEventKind::Other ==> final(self)@ == old(
                self,
            )@ && actions@ =~= Seq::<HostAction>::empty(),
            spec_is_library_path(path@) && (kind == FsEventKind::Create || kind
                == FsEventKind::Modify) ==> {
                &&& loaded_at(final(self)@, path@, new_handle)
                &&& (forall|p: Seq<char>, h: u64|
                    p != path@ ==> (#[trigger] loaded_at(final(self)@, p, h) <==> loaded_at(
                        old(self)@,
                        p,
                        h,
                    )))
                &&& (match old_handle_of(old(self)@, path@) {
                    Some(h) => actions@ =~= seq![
                        HostAction::ShutdownPlugin(h),
                        HostAction::InitPlugin(new_handle),
                        HostAction::StartPlugin(new_handle),
                    ],
                    None => actions@ =~= seq![
                        HostAction::InitPlugin(new_handle),
                        HostAction::StartPlugin(new_handle),
                    ],
                })
            },
            spec_is_library_path(path@) && kind == FsEventKind::Remove ==> {
                &&& !has_plugin(final(self)@, path@)
                &&& (forall|p: Seq<char>, h: u64|
                    p != path@ ==> (#[trigger] loaded_at(final(self)@, p, h) <==> loaded_at(
                        old(self)@,
                        p,
                        h,
                    )))
                &&& (match old_handle_of(old(self)@, path@) {
                    Some(h) => actions@ =~= seq![HostAction::ShutdownPlugin(h)],
                    None => actions@ =~= Seq::<HostAction>::empty(),
                })
            },
    {
        let mut actions: Vec<HostAction> = Vec::new();
        if !is_library_path(path) {
            return actions;
        }
        match kind {
            FsEventKind::Create | FsEventKind::Modify => {
                let ghost v0 = self@;
                match self.find_path(path) {
                    Some(i) => {
                        let old_h = self.plugins[i].1;
                        proof {
                            assert(v0[i as int] == (path@, old_h));
                            lemma_old_handle(v0, path@, i as int);
                        }
                        actions.push(HostAction::ShutdownPlugin(old_h));
                        self.plugins[i] = (path.clone(), new_handle);
                        proof {
                            assert(self@ =~= v0.update(i as int, (path@, new_handle)));
                        }
                    },
                    None => {
                        proof {
                            lemma_no_old_handle(v0, path@);
                        }
                        self.plugins.push((path.clone(), new_handle));
                        proof {
                            assert(self@ =~= v0.push((path@, new_handle)));
                        }
                    },
                }
                actions.push(HostAction::InitPlugin(new_handle));
                actions.push(HostAction::StartPlugin(new_handle));
                proof {
                    lemma_reload_shape(v0, self@, path@, new_handle);
                }
            },
            FsEventKind::Remove => {
                let ghost v0 = self@;
                match self.find_path(path) {
                    Some(i) => {
                        let old_h = self.plugins[i].1;
                        proof {
                            assert(v0[i as int] == (path@, old_h));
                            lemma_old_handle(v0, path@, i as int);
                        }
                        actions.push(HostAction::ShutdownPlugin(old_h));
                        self.plugins.remove(i);
                        proof {
                            assert(self@ =~= v0.remove(i as int));
                            lemma_removal_shape(v0, self@, path@, i as int);
                        }
                    },
                    None => {
                        proof {
                            lemma_no_old_handle(v0, path@);
                            assert forall|p: Seq<char>, h: u64|
                                p != path@ implies (#[trigger] loaded_at(self@, p, h) <==> loaded_at(
                                v0,
                                p,
                                h,
                            )) by {}
                        }
                    },
                }
            },
            FsEventKind::Other => {},
        }
        actions
    }
}

/// The handle loaded from `path`, where one is.
pub open spec fn old_handle_of(v: Seq<(Seq<char>, u64)>, path: Seq<char>) -> Option<u64> {
    if has_plugin(v, path) {
        Some(v[choose|i: int| 0 <= i < v.len() && (#[trigger] v[i]).0 == path].1)
    } else {
        None
    }
}

/// With distinct paths, the entry at `i` determines the handle of its path.
proof fn lemma_old_handle(v: Seq<(Seq<char>, u64)>, path: Seq<char>, i: int)
    requires
        registry_paths_distinct(v),
        0 <= i < v.len(),
        v[i].0 == path,
    ensures
        old_handle_of(v, path) == Some(v[i].1),
{
    assert(has_plugin(v, path));
    let j = choose|j: int| 0 <= j < v.len() && (#[trigger] v[j]).0 == path;
    assert(j == i);
}

/// A path no entry carries has no handle.
proof fn lemma_no_old_handle(v: Seq<(Seq<char>, u64)>, path: Seq<char>)
    requires
        !has_plugin(v, path),
    ensures
        old_handle_of(v, path) is None,
{
}

/// After replacing or appending the entry for `path`, it is loaded with the
/// new handle, every other path is untouched, and paths stay distinct.
proof fn lemma_reload_shape(
    v0: Seq<(Seq<char>, u64)>,
    v1: Seq<(Seq<char>, u64)>,
    path: Seq<char>,
    new_handle: u64,
)
    requires
        registry_paths_distinct(v0),
        (exists|i: int|
            0 <= i < v0.len() && (#[trigger] v0[i]).0 == path && v1 == v0.update(
                i,
                (path, new_handle),
            )) || (!has_plugin(v0, path) && v1 == v0.push((path, new_handle))),
    ensures
        registry_paths_distinct(v1),
        loaded_at(v1, path, new_handle),
        forall|p: Seq<char>, h: u64|
            p != path ==> (#[trigger] loaded_at(v1, p, h) <==> loaded_at(v0, p, h)),
{
    if exists|i: int|
        0 <= i < v0.len() && (#[trigger] v0[i]).0 == path && v1 == v0.update(i, (path, new_handle)) {
        let ui = choose|i: int|
            0 <= i < v0.len() && (#[trigger] v0[i]).0 == path && v1 == v0.update(
                i,
                (path, new_handle),
            );
        assert(v1[ui] == (path, new_handle));
        assert forall|p: Seq<char>, h: u64|
            p != path implies (#[trigger] loaded_at(v1, p, h) <==> loaded_at(v0, p, h)) by {
            if loaded_at(v1, p, h) {
                let j = choose|j: int| 0 <= j < v1.len() && v1[j] == (p, h);
                assert(j != ui);
                assert(v0[j] == (p, h));
            }
            if loaded_at(v0, p, h) {
                let j = choose|j: int| 0 <= j < v0.len() && v0[j] == (p, h);
                assert(j != ui);
                assert(v1[j] == (p, h));
            }
        }
        assert forall|i: int, j: int|
            0 <= i < v1.len() && 0 <= j < v1.len() && i != j implies (#[trigger] v1[i]).0 != (
        #[trigger] v1[j]).0 by {
            assert(v1[i].0 == v0[i].0 && v1[j].0 == v0[j].0);
        }
    } else {
        let nl = v0.len() as int;
        assert(v1[nl] == (path, new_handle));
        assert forall|p: Seq<char>, h: u64|
            p != path implies (#[trigger] loaded_at(v1, p, h) <==> loaded_at(v0, p, h)) by {
            if loaded_at(v1, p, h) {
                let j = choose|j: int| 0 <= j < v1.len() && v1[j] == (p, h);
                assert(j != nl);
                assert(v0[j] == (p, h));
            }
            if loaded_at(v0, p, h) {
                let j = choose|j: int| 0 <= j < v0.len() && v0[j] == (p, h);
                assert(v1[j] == (p, h));
            }
        }
        assert forall|i: int, j: int|
            0 <= i < v1.len() && 0 <= j < v1.len() && i != j implies (#[trigger] v1[i]).0 != (
        #[trigger] v1[j]).0 by {
            if i < nl && j < nl {
                assert(v1[i] == v0[i] && v1[j] == v0[j]);
            } else if i < nl {
                assert(v1[j].0 == path && v1[i] == v0[i]);
            } else {
                assert(v1[i].0 == path && v1[j] == v0[j]);
            }
        }
    }
}

/// After removing the entry for `path`, no plugin is loaded from it and
/// every other path is untouched.
proof fn lemma_removal_shape(
    v0: Seq<(Seq<char>, u64)>,
    v1: Seq<(Seq<char>, u64)>,
    path: Seq<char>,
    ri: int,
)
    requires
        registry_paths_distinct(v0),
        0 <= ri < v0.len(),
        v0[ri].0 == path,
        v1 == v0.remove(ri),
    ensures
        registry_paths_distinct(v1),
        !has_plugin(v1, path),
        forall|p: Seq<char>, h: u64|
            p != path ==> (#[trigger] loaded_at(v1, p, h) <==> loaded_at(v0, p, h)),
{
    v0.remove_ensures(ri);
    assert forall|i: int, j: int|
        0 <= i < v1.len() && 0 <= j < v1.len() && i != j implies (#[trigger] v1[i]).0 != (
    #[trigger] v1[j]).0 by {
        let i0: int = if i < ri {
            i
        } else {
            i + 1
        };
        let j0: int = if j < ri {
            j
        } else {
            j + 1
        };
        assert(v1[i] == v0[i0] && v1[j] == v0[j0]);
    }
    assert(!has_plugin(v1, path)) by {
        if has_plugin(v1, path) {
            let i = choose|i: int| 0 <= i < v1.len() && (#[trigger] v1[i]).0 == path;
            let i0: int = if i < ri {
                i
            } else {
                i + 1
            };
            assert(v1[i] == v0[i0]);
            assert(i0 != ri);
        }
    }
    assert forall|p: Seq<char>, h: u64|
        p != path implies (#[trigger] loaded_at(v1, p, h) <==> loaded_at(v0, p, h)) by {
        if loaded_at(v1, p, h) {
            let i = choose|i: int| 0 <= i < v1.len() && v1[i] == (p, h);
            let i0: int = if i < ri {
                i
            } else {
                i + 1
            };
            assert(v0[i0] == (p, h));
        }
        if loaded_at(v0, p, h) {
            let i = choose|i: int| 0 <= i < v0.len() && v0[i] == (p, h);
            assert(i != ri);
            if i < ri {
                assert(v1[i] == (p, h));
            } else {
                assert(v1[i - 1] == (p, h));
            }
        }
    }
}

} // verus!
