//! Decision logic of the overlay filesystem: which module specifiers the
//! overlay serves, and which paths it claims.
//!
//! The overlay intercepts paths under one synthetic root and refuses
//! operations there, delegating everything else to the real filesystem. The
//! delegation, the module bytes and the bundle format live with the embedding
//! application; what stands here is the dispatch itself: a component-wise
//! path-prefix test and the selection of specifiers under the overlay's
//! scheme prefix.

use vstd::prelude::*;
use vstd::string::StrSliceExecFns;

verus! {

/// `p` is a prefix of `s`.
pub open spec fn is_seq_prefix<A>(p: Seq<A>, s: Seq<A>) -> bool {
    p.len() <= s.len() && p == s.subrange(0, p.len() as int)
}

/// Character-for-character prefix test.
#[verifier::loop_isolation(false)]
pub fn str_starts_with(s: &str, p: &str) -> (r: bool)
    ensures
        r == is_seq_prefix(p@, s@),
{
    let sl = s.unicode_len();
    let pl = p.unicode_len();
    if pl > sl {
        return false;
    }
    let mut i: usize = 0;
    while i < pl
        invariant
            i <= pl,
            forall|j: int| 0 <= j < i ==> p@[j] == s@[j],
        decreases pl - i,
    {
        if s.get_char(i) != p.get_char(i) {
            return false;
        }
        i += 1;
    }
    proof {
        assert(p@ =~= s@.subrange(0, p@.len() as int));
    }
    true
}

/// The scheme prefix under which the overlay's modules are addressed.
pub fn vfs_specifier_prefix() -> (p: &'static str)
    ensures
        p@ == "internal://npm_vfs/"@,
{
    "internal://npm_vfs/"
}

/// The specifiers of `all` that carry the overlay's scheme prefix, in order.
pub open spec fn vfs_selection(all: Seq<Seq<char>>) -> Seq<Seq<char>>
    decreases all.len(),
{
    if all.len() == 0 {
        Seq::empty()
    } else {
        vfs_selection(all.drop_last()) + (if is_seq_prefix("internal://npm_vfs/"@, all.last()) {
            seq![all.last()]
        } else {
            Seq::empty()
        })
    }
}

/// The module specifiers that the overlay serves out of a bundle.
pub struct EszipFileSystemResources {
    specifiers: Vec<String>,
}

impl View for EszipFileSystemResources {
    type V = Seq<Seq<char>>;

    closed spec fn view(&self) -> Seq<Seq<char>> {
        self.specifiers.deep_view()
    }
}

impl EszipFileSystemResources {
    /// The specifiers the overlay serves, in bundle order.
    pub fn specifiers(&self) -> (r: &Vec<String>)
        ensures
            r.deep_view() == self@,
    {
        &self.specifiers
    }

    /// Selects, from a bundle's module specifiers, exactly the ones the
    /// overlay serves: those under the overlay's scheme prefix, in bundle
    /// order. Reading the bundle and loading each selected module's bytes is
    /// the embedding application's work.
    #[verifier::loop_isolation(false)]
    pub fn load(specifiers: Vec<String>) -> (r: EszipFileSystemResources)
        ensures
            r@ == vfs_selection(specifiers.deep_view()),
    {
        let mut kept: Vec<String> = Vec::new();
        let mut i: usize = 0;
        while i < specifiers.len()
            invariant
                i <= specifiers.len(),
                kept.deep_view() == vfs_selection(specifiers.deep_view().subrange(0, i as int)),
            decreases specifiers.len() - i,
        {
            let ghost pre = kept.deep_view();
            let ghost seen = specifiers.deep_view().subrange(0, i as int);
            let ghost seen2 = specifiers.deep_view().subrange(0, i + 1 as int);
            if str_starts_with(specifiers[i].as_str(), vfs_specifier_prefix()) {
                kept.push(specifiers[i].clone());
                proof {
                    assert(kept.deep_view() =~= pre + seq![specifiers.deep_view()[i as int]]);
                }
            }
            proof {
                assert(seen2.drop_last() =~= seen);
                assert(seen2.last() == specifiers.deep_view()[i as int]);
                if !is_seq_prefix("internal://npm_vfs/"@, specifiers.deep_view()[i as int]) {
                    assert(kept.deep_view() =~= pre + Seq::<Seq<char>>::empty());
                }
            }
            i += 1;
        }
        proof {
            assert(specifiers.deep_view().subrange(0, specifiers.len() as int) =~= specifiers.deep_view());
        }
        EszipFileSystemResources { specifiers: kept }
    }
}

/// A filesystem path, modeled as its components in order. The embedding
/// application converts its platform paths to and from this form.
pub struct VfsPath {
    pub segments: Vec<String>,
}

impl View for VfsPath {
    type V = Seq<Seq<char>>;

    open spec fn view(&self) -> Seq<Seq<char>> {
        self.segments.deep_view()
    }
}

/// The error the overlay answers for an operation on a path it claims: the
/// operation is not supported under the synthetic root.
#[derive(Clone, Copy, Debug, PartialEq, Eq, Structural)]
pub enum VfsOpError {
    NotSupported,
}

/// The overlay filesystem's own state: the module specifiers it serves and
/// the root path it claims.
pub struct EszipFileSystem {
    resources: EszipFileSystemResources,
    root_path: VfsPath,
}

impl EszipFileSystem {
    /// The root path the overlay claims, component-wise.
    pub closed spec fn root(&self) -> Seq<Seq<char>> {
        self.root_path@
    }

    /// The module specifiers the overlay serves.
    pub closed spec fn modules(&self) -> Seq<Seq<char>> {
        self.resources@
    }

    /// An overlay over the given resources, claiming the given root.
    pub fn new(data: EszipFileSystemResources, root_path: VfsPath) -> (fs: EszipFileSystem)
        ensures
            fs.root() == root_path@,
            fs.modules() == data@,
    {
        EszipFileSystem { resources: data, root_path }
    }

    /// Whether a path lies under the overlay's root: the root's components
    /// are a prefix of the path's.
    #[verifier::loop_isolation(false)]
    pub fn is_path_within(&self, path: &VfsPath) -> (r: bool)
        ensures
            r == is_seq_prefix(self.root(), path@),
    {
        let rl = self.root_path.segments.len();
        let pl = path.segments.len();
        if rl > pl {
            return false;
        }
        let mut i: usize = 0;
        while i < rl
            invariant
                i <= rl,
                forall|j: int| 0 <= j < i ==> self.root()[j] == path@[j],
            decreases rl - i,
        {
            if !(self.root_path.segments[i] == path.segments[i]) {
                proof {
                    assert(self.root()[i as int] == self.root_path.segments@[i as int]@);
                    assert(path@[i as int] == path.segments@[i as int]@);
                    if is_seq_prefix(self.root(), path@) {
                        assert(self.root()[i as int] == path@.subrange(
                            0,
                            self.root().len() as int,
                        )[i as int]);
                    }
                }
                return false;
            }
            i += 1;
        }
        proof {
            assert(self.root() =~= path@.subrange(0, self.root().len() as int));
        }
        true
    }

    /// Lets an operation through only where the overlay does not claim the
    /// path; under the overlay's root the operation is refused.
    pub fn error_if_in_vfs(&self, path: &VfsPath) -> (r: Result<(), VfsOpError>)
        ensures
            r is Ok <==> !is_seq_prefix(self.root(), path@),
            r is Err ==> r == Err::<(), VfsOpError>(VfsOpError::NotSupported),
    {
        if self.is_path_within(path) {
            Err(VfsOpError::NotSupported)
        } else {
            Ok(())
        }
    }
}

} // verus!
