//! The order in which a folder tree is walked: depth first, folders taken
//! from the top of a stack, each folder's entries met in the order the file
//! system lists them.

use vstd::prelude::*;
use crate::names::{crack_stage_dir, descend_into, descends_into};

verus! {

/// An entry of a listed folder.
pub struct DirItem {
    pub path: String,
    pub name: String,
    pub is_dir: bool,
}

/// Which folders a walk goes into.
pub enum WalkRule {
    /// Every folder, however deep.
    Everywhere,
    /// Folders down to the given depth (0 = only the root), never into the
    /// staged-crack folder.
    Release(usize),
    /// Folders down to the given depth, any name.
    Limited(usize),
}

pub open spec fn goes_into(rule: WalkRule, depth: nat, name: Seq<char>) -> bool {
    match rule {
        WalkRule::Everywhere => true,
        WalkRule::Release(max) => descends_into(depth, max as nat, name),
        WalkRule::Limited(max) => depth < max,
    }
}

/// A depth-first walk in progress: the folders still to list, with their
/// depths; the last one is listed next.
pub struct DirWalk {
    pub rule: WalkRule,
    pub stack: Vec<(String, usize)>,
}

/// The folders of `items` the walk goes into, in order, one level deeper.
pub open spec fn subdirs(rule: WalkRule, depth: nat, items: Seq<DirItem>) -> Seq<(String, usize)>
    decreases items.len(),
{
    if items.len() == 0 {
        Seq::empty()
    } else {
        let prev = subdirs(rule, depth, items.drop_last());
        let it = items.last();
        if it.is_dir && goes_into(rule, depth, it.name@) {
            prev.push((it.path, (depth + 1) as usize))
        } else {
            prev
        }
    }
}

impl DirWalk {
    /// A walk that starts at `root`, at depth 0.
    pub fn new(root: String, rule: WalkRule) -> (w: DirWalk)
        ensures
            w.rule == rule,
            w.stack@ == seq![(root, 0usize)],
    {
        let mut stack = Vec::new();
        stack.push((root, 0usize));
        DirWalk { rule, stack }
    }

    /// The folder to list next (the last pushed), with its depth.
    pub fn next(&mut self) -> (r: Option<(String, usize)>)
        ensures
            final(self).rule == old(self).rule,
            old(self).stack@.len() == 0 ==> r is None && final(self).stack@ == old(self).stack@,
            old(self).stack@.len() > 0 ==> r == Some(old(self).stack@.last())
                && final(self).stack@ == old(self).stack@.drop_last(),
    {
        self.stack.pop()
    }

    /// Takes in the entries of a folder listed at `depth`: the folders to go
    /// into are pushed in order; the files are handed back, in order, by
    /// their positions in `items`.
    pub fn visit(&mut self, depth: usize, items: Vec<DirItem>) -> (files: Vec<usize>)
        requires
            depth < usize::MAX,
        ensures
            final(self).rule == old(self).rule,
            final(self).stack@ == old(self).stack@ + subdirs(old(self).rule, depth as nat, items@),
            forall|k: int| 0 <= k < files@.len() ==> #[trigger] files@[k] < items@.len()
                && !items@[files@[k] as int].is_dir,
            forall|k: int, l: int| 0 <= k < l < files@.len() ==> files@[k] < files@[l],
            forall|j: int|
                0 <= j < items@.len() && !items@[j].is_dir ==> files@.contains(j as usize),
    {
        let ghost old_stack = self.stack@;
        let n = items.len();
        let mut files: Vec<usize> = Vec::new();
        let mut items = items;
        let ghost all = items@;
        // take the items apart from the back, then restore their order
        let mut rev_files: Vec<usize> = Vec::new();
        let mut rev_dirs: Vec<(String, usize)> = Vec::new();
        let mut i: usize = n;
        assert(all.take(n as int) =~= all);
        assert(rev_dirs@.reverse() =~= Seq::<(String, usize)>::empty());
        assert(subdirs(self.rule, depth as nat, all) + Seq::<(String, usize)>::empty() =~= subdirs(
            self.rule,
            depth as nat,
            all,
        ));
        while i > 0
            invariant
                items@ == all.take(i as int),
                i <= n,
                n == all.len(),
                subdirs(self.rule, depth as nat, all) == subdirs(
                    self.rule,
                    depth as nat,
                    all.take(i as int),
                ) + rev_dirs@.reverse(),
                forall|k: int| 0 <= k < rev_files@.len() ==> i <= #[trigger] rev_files@[k] < n
                    && !all[rev_files@[k] as int].is_dir,
                forall|k: int, l: int| 0 <= k < l < rev_files@.len() ==> rev_files@[k] > rev_files@[l],
                forall|j: int| i <= j < n && !all[j].is_dir ==> rev_files@.contains(j as usize),
                self.stack@ == old_stack,
                depth < usize::MAX,
            decreases i,
        {
            let it = items.pop().unwrap();
            let ghost before = all.take(i as int);
            assert(before.drop_last() =~= all.take(i - 1));
            assert(before.last() == all[i - 1]);
            i -= 1;
            let go = it.is_dir && match self.rule {
                WalkRule::Everywhere => true,
                WalkRule::Release(max) => descend_into(depth, max, it.name.as_str()),
                WalkRule::Limited(max) => depth < max,
            };
            if go {
                rev_dirs.push((it.path, depth + 1));
                assert(rev_dirs@.reverse() =~= seq![(all[i as int].path, (depth + 1) as usize)]
                    + rev_dirs@.drop_last().reverse());
            } else if !it.is_dir {
                let ghost prev = rev_files@;
                rev_files.push(i);
                assert forall|j: int| i <= j < n && !all[j].is_dir implies rev_files@.contains(
                    j as usize,
                ) by {
                    if j == i {
                        assert(rev_files@[rev_files@.len() - 1] == i);
                    } else {
                        let k = choose|k: int| 0 <= k < prev.len() && prev[k] == j as usize;
                        assert(rev_files@[k] == j as usize);
                    }
                }
            }
        }
        assert(all.take(0) =~= Seq::<DirItem>::empty());
        assert(subdirs(self.rule, depth as nat, all.take(0)) =~= Seq::<(String, usize)>::empty());
        // restore the order: popping the reversed lists yields them front first
        let ghost want = rev_dirs@.reverse();
        let mut stack = Vec::new();
        std::mem::swap(&mut stack, &mut self.stack);
        while rev_dirs.len() > 0
            invariant
                stack@ + rev_dirs@.reverse() == old_stack + want,
            decreases rev_dirs.len(),
        {
            let ghost r = rev_dirs@;
            let d = rev_dirs.pop().unwrap();
            assert(r.reverse() =~= seq![d] + rev_dirs@.reverse());
            stack.push(d);
            assert(stack@ + rev_dirs@.reverse() =~= old_stack + want);
        }
        assert(rev_dirs@.reverse() =~= Seq::<(String, usize)>::empty());
        assert(stack@ =~= old_stack + want);
        self.stack = stack;
        let ghost whole = rev_files@.reverse();
        assert forall|k: int, l: int| 0 <= k < l < whole.len() implies whole[k] < whole[l] by {
            assert(whole[k] == rev_files@[rev_files@.len() - 1 - k]);
            assert(whole[l] == rev_files@[rev_files@.len() - 1 - l]);
        }
        assert forall|j: int| 0 <= j < n && !all[j].is_dir implies whole.contains(j as usize) by {
            assert(rev_files@.contains(j as usize));
            let k = choose|k: int| 0 <= k < rev_files@.len() && rev_files@[k] == j as usize;
            assert(whole[rev_files@.len() - 1 - k] == j as usize);
        }
        while rev_files.len() > 0
            invariant
                files@ + rev_files@.reverse() == whole,
            decreases rev_files.len(),
        {
            let ghost r = rev_files@;
            let f = rev_files.pop().unwrap();
            assert(r.reverse() =~= seq![f] + rev_files@.reverse());
            files.push(f);
            assert(files@ + rev_files@.reverse() =~= whole);
        }
        assert(rev_files@.reverse() =~= Seq::<usize>::empty());
        assert(files@ =~= whole);
        files
    }
}

} // verus!
