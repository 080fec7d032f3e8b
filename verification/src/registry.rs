//! The controls of the downloads in flight, so that a pause or a cancel can
//! reach the download it is meant for.

use vstd::prelude::*;
use crate::slug_map::SlugMap;

verus! {

/// A download runs on.
pub const RUN: u8 = 0;

/// A download stops where it is and can be resumed.
pub const PAUSE: u8 = 1;

/// A download stops and its partial file is dropped.
pub const CANCEL: u8 = 2;

/// The abstract state of the registry: each registered slug's control, and
/// the value of every control ever handed out (a control stays readable by
/// its download after its slug is unregistered or registered anew).
pub struct RegistryView {
    pub slots: Map<Seq<char>, nat>,
    pub controls: Seq<u8>,
}

/// `register`: a fresh control, set to `RUN`, now answers for `slug`.
pub open spec fn register_spec(v: RegistryView, slug: Seq<char>) -> (RegistryView, nat) {
    let id = v.controls.len();
    (RegistryView { slots: v.slots.insert(slug, id), controls: v.controls.push(RUN) }, id)
}

/// `signal`: where `slug` is registered, its control takes `state`; the
/// result says whether it was.
pub open spec fn signal_spec(v: RegistryView, slug: Seq<char>, state: u8) -> (RegistryView, bool) {
    if v.slots.dom().contains(slug) {
        (RegistryView { slots: v.slots, controls: v.controls.update(v.slots[slug] as int, state) }, true)
    } else {
        (v, false)
    }
}

/// `unregister`: `slug` no longer answers to signals.
pub open spec fn unregister_spec(v: RegistryView, slug: Seq<char>) -> RegistryView {
    RegistryView { slots: v.slots.remove(slug), controls: v.controls }
}

/// Tracks the control of each active download so pause/cancel can reach it.
pub struct InstallManager {
    slots: SlugMap<usize>,
    controls: Vec<u8>,
}

impl Default for InstallManager {
    fn default() -> (m: InstallManager)
        ensures
            m.view().slots == Map::<Seq<char>, nat>::empty(),
            m.view().controls == Seq::<u8>::empty(),
    {
        InstallManager::new()
    }
}

impl InstallManager {
    #[verifier::type_invariant]
    spec fn controls_exist(self) -> bool {
        forall|k: Seq<char>|
            #[trigger] self.slots.view().dom().contains(k) ==> self.slots.view()[k]
                < self.controls@.len()
    }

    pub closed spec fn view(self) -> RegistryView {
        RegistryView {
            slots: self.slots.view().map_values(|i: usize| i as nat),
            controls: self.controls@,
        }
    }

    pub fn new() -> (m: InstallManager)
        ensures
            m.view().slots == Map::<Seq<char>, nat>::empty(),
            m.view().controls == Seq::<u8>::empty(),
    {
        let m = InstallManager { slots: SlugMap::new(), controls: Vec::new() };
        assert(m.view().slots =~= Map::<Seq<char>, nat>::empty());
        m
    }

    /// Hands out a fresh control for `slug`, set to `RUN`; its number reads it.
    pub fn register(&mut self, slug: &str) -> (id: usize)
        ensures
            (final(self).view(), id as nat) == register_spec(old(self).view(), slug@),
            controls_exist(final(self).view()),
    {
        proof {
            use_type_invariant(&*self);
        }
        let ghost old_view = self.view();
        let ghost old_slots = self.slots.view();
        let id = self.controls.len();
        let mut whole = InstallManager::new();
        std::mem::swap(self, &mut whole);
        let InstallManager { mut slots, mut controls } = whole;
        controls.push(RUN);
        slots.insert(slug.to_string(), id);
        *self = InstallManager { slots, controls };
        proof {
            assert(self.view().slots =~= old_view.slots.insert(slug@, id as nat));
            use_type_invariant(&*self);
        }
        id
    }

    /// Sets the control of the download for `slug`; `true` if a download for
    /// `slug` was active (and got the signal).
    pub fn signal(&mut self, slug: &str, state: u8) -> (b: bool)
        ensures
            (final(self).view(), b) == signal_spec(old(self).view(), slug@, state),
            controls_exist(final(self).view()),
    {
        proof {
            use_type_invariant(&*self);
        }
        let ghost old_view = self.view();
        match self.slots.get(slug) {
            Some(i) => {
                let i = *i;
                let mut whole = InstallManager::new();
        std::mem::swap(self, &mut whole);
                let InstallManager { slots, mut controls } = whole;
                controls.set(i, state);
                *self = InstallManager { slots, controls };
                proof {
                    assert(self.view().slots =~= old_view.slots);
                    use_type_invariant(&*self);
                }
                true
            },
            None => {
                proof {
                    use_type_invariant(&*self);
                }
                false
            },
        }
    }

    /// `slug` stops answering to signals.
    pub fn unregister(&mut self, slug: &str)
        ensures
            final(self).view() == unregister_spec(old(self).view(), slug@),
            controls_exist(final(self).view()),
    {
        proof {
            use_type_invariant(&*self);
        }
        let ghost old_view = self.view();
        let mut whole = InstallManager::new();
        std::mem::swap(self, &mut whole);
        let InstallManager { mut slots, controls } = whole;
        slots.remove(slug);
        *self = InstallManager { slots, controls };
        proof {
            assert(self.view().slots =~= old_view.slots.remove(slug@));
            use_type_invariant(&*self);
        }
    }

    /// How many controls were handed out; every number below it reads one,
    /// and every registered slug's control is among them (for any manager,
    /// however it was built).
    pub fn control_count(&self) -> (n: usize)
        ensures
            n == self.view().controls.len(),
            controls_exist(self.view()),
    {
        proof {
            use_type_invariant(self);
        }
        self.controls.len()
    }

    /// The current value of control `id`.
    pub fn control(&self, id: usize) -> (c: u8)
        requires
            id < self.view().controls.len(),
        ensures
            c == self.view().controls[id as int],
    {
        self.controls[id]
    }
}

} // verus!

verus! {

/// Every registered slug's control exists.
pub open spec fn controls_exist(v: RegistryView) -> bool {
    forall|k: Seq<char>| #[trigger] v.slots.dom().contains(k) ==> v.slots[k] < v.controls.len()
}

/// Registering, signalling and unregistering keep every registered slug's
/// control in existence.
pub proof fn law_controls_exist_kept(v: RegistryView, slug: Seq<char>, state: u8)
    requires
        controls_exist(v),
    ensures
        controls_exist(register_spec(v, slug).0),
        controls_exist(signal_spec(v, slug, state).0),
        controls_exist(unregister_spec(v, slug)),
{
}

/// A download that was just registered reads `RUN`, and a signal to its
/// slug is taken (the result is `true`) and is what the download then reads.
pub proof fn law_signal_reaches_registered(v: RegistryView, slug: Seq<char>, state: u8)
    ensures
        register_spec(v, slug).0.controls[register_spec(v, slug).1 as int] == RUN,
        signal_spec(register_spec(v, slug).0, slug, state).1,
        signal_spec(register_spec(v, slug).0, slug, state).0.controls[register_spec(v, slug).1 as int]
            == state,
{
}

/// Once unregistered, a slug's signals are refused (`false`) and change
/// nothing.
pub proof fn law_unregistered_not_signalled(v: RegistryView, slug: Seq<char>, state: u8)
    ensures
        signal_spec(unregister_spec(v, slug), slug, state) == (unregister_spec(v, slug), false),
{
}

/// A signal changes no control but the one of its own slug.
pub proof fn law_signal_touches_only_its_slug(
    v: RegistryView,
    slug: Seq<char>,
    state: u8,
    id: nat,
)
    requires
        controls_exist(v),
        id < v.controls.len(),
        !(v.slots.dom().contains(slug) && v.slots[slug] == id),
    ensures
        signal_spec(v, slug, state).0.controls[id as int] == v.controls[id as int],
        signal_spec(v, slug, state).0.controls.len() == v.controls.len(),
{
}

/// Registering a slug again leaves the earlier download's control alone:
/// signals now reach only the new download.
pub proof fn law_reregister_detaches(v: RegistryView, slug: Seq<char>, state: u8)
    ensures
        ({
            let (v1, first) = register_spec(v, slug);
            let (v2, second) = register_spec(v1, slug);
            let (v3, taken) = signal_spec(v2, slug, state);
            taken && v3.controls[first as int] == RUN && v3.controls[second as int] == state
        }),
{
}

} // verus!
