use vstd::prelude::*;
use crate::state::editor::id_views;
use crate::text::str_eq;

verus! {

/// A file event that asks for a re-export: a modification or a creation of a file
/// whose extension is `sprite`.
pub fn is_sprite_change(modify_or_create: bool, extension: Option<&str>) -> (r: bool)
    ensures
        r == (modify_or_create && (extension matches Some(e) && e@ == "sprite"@)),
{
    match extension {
        Some(e) => modify_or_create && str_eq(e, "sprite"),
        None => false,
    }
}

/// Sprite files waiting for re-export, each listed once, in the order they changed.
pub struct PendingExports {
    paths: Vec<String>,
}

impl PendingExports {
    /// The pending paths.
    pub closed spec fn paths(&self) -> Seq<Seq<char>> {
        id_views(self.paths@)
    }

    #[verifier::type_invariant]
    closed spec fn listed_once(&self) -> bool {
        self.paths().no_duplicates()
    }

    /// Nothing pending.
    pub fn new() -> (p: Self)
        ensures
            p.paths() == Seq::<Seq<char>>::empty(),
    {
        let p = PendingExports { paths: Vec::new() };
        assert(p.paths() =~= Seq::<Seq<char>>::empty());
        p
    }

    /// Queue a changed file unless it is already waiting.
    pub fn queue(&mut self, path: String)
        ensures
            final(self).paths() == if old(self).paths().contains(path@) { old(self).paths() } else { old(self).paths().push(path@) },
            final(self).paths().no_duplicates(),
    {
        proof { use_type_invariant(&*self); }
        let mut i: usize = 0;
        while i < self.paths.len()
            invariant
                i <= self.paths@.len(),
                self.paths().no_duplicates(),
                forall|k: int| 0 <= k < i ==> self.paths@[k]@ != path@,
            decreases self.paths@.len() - i,
        {
            if str_eq(self.paths[i].as_str(), path.as_str()) {
                assert(self.paths()[i as int] == path@);
                return;
            }
            i = i + 1;
        }
        let ghost before = self.paths();
        assert(!before.contains(path@)) by {
            if before.contains(path@) {
                let k = choose|k: int| 0 <= k < before.len() && before[k] == path@;
                assert(self.paths@[k]@ == path@);
            }
        }
        let mut v: Vec<String> = Vec::new();
        std::mem::swap(&mut v, &mut self.paths);
        v.push(path);
        assert(id_views(v@) =~= before.push(path@));
        self.paths = v;
    }

    /// Take every pending path, leaving none.
    pub fn drain(&mut self) -> (r: Vec<String>)
        ensures
            id_views(r@) == old(self).paths(),
            final(self).paths() == Seq::<Seq<char>>::empty(),
    {
        proof { use_type_invariant(&*self); }
        let mut v: Vec<String> = Vec::new();
        std::mem::swap(&mut v, &mut self.paths);
        assert(self.paths() =~= Seq::<Seq<char>>::empty());
        v
    }
}

} // verus!
