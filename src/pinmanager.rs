use vstd::prelude::*;

use crate::error::PinError;
use crate::pins::GpioPins;
use crate::pinset::{
    common, repeated_pins, contains_pin, copy_pins, flat, lemma_common_contains, lemma_concat_no_duplicates,
    lemma_flat_disjoint, lemma_flat_member, lemma_flat_push, lemma_repeated_names_repeats,
    append_common, lemma_common_concat, repeated,
};
use crate::port::{defines_port, InputPort, OutputPort, PinOccupant, Port};

verus! {

/// Something the scheduler activates on every cycle, unless it is paused or stopped.
pub trait ActivePort: Sized {
    /// Whether the port sits out of activation cycles for now.
    spec fn paused(&self) -> bool;

    /// Whether the port asked to be left out of all further cycles.
    spec fn stopped(&self) -> bool;

    /// What one activation turns the port `self` into.
    spec fn activates_to(&self, next: Self) -> bool;

    fn is_paused(&self) -> (r: bool)
        ensures
            r == self.paused(),
    ;

    fn is_stopped(&self) -> (r: bool)
        ensures
            r == self.stopped(),
    ;

    fn pause(&mut self, paused: bool)
        ensures
            final(self).paused() == paused,
            final(self).stopped() == old(self).stopped(),
    ;

    fn stop(&mut self)
        ensures
            final(self).stopped(),
            final(self).paused() == old(self).paused(),
    ;

    fn activate(&mut self)
        ensures
            old(self).activates_to(*final(self)),
            final(self).paused() == old(self).paused(),
            final(self).stopped() == old(self).stopped(),
    ;
}

/// Whether the scheduler leaves `p` alone in a cycle.
pub open spec fn skipped<A: ActivePort>(p: A) -> bool {
    p.paused() || p.stopped()
}

/// Whether registering `pins` against the claimed pins `taken` succeeds.
pub open spec fn registrable(taken: Seq<GpioPins>, pins: Seq<GpioPins>) -> bool {
    repeated(pins).len() == 0 && common(taken, pins).len() == 0
}

/// The registry of claimed pins, and of the ports that the scheduler activates.
pub struct PinManager<A> {
    pin_occupants: Vec<Vec<GpioPins>>,
    active_ports: Vec<A>,
}

impl<A: ActivePort> PinManager<A> {
    /// The pin definition of each live occupant, in order of registration.
    pub closed spec fn occupants(&self) -> Seq<Seq<GpioPins>> {
        self.pin_occupants@.map_values(|v: Vec<GpioPins>| v@)
    }

    /// The ports registered for activation, in order.
    pub closed spec fn active(&self) -> Seq<A> {
        self.active_ports@
    }

    /// Every claimed pin, occupant after occupant.
    pub open spec fn taken(&self) -> Seq<GpioPins> {
        flat(self.occupants())
    }

    /// No pin is claimed twice, within one occupant or across two.
    pub open spec fn wf(&self) -> bool {
        self.taken().no_duplicates()
    }

    /// What a registration of `pins` did to the occupants and what it returned.
    pub open spec fn registered<P: Port>(
        old_m: Self,
        new_m: Self,
        pins: Seq<GpioPins>,
        r: Result<P, PinError>,
    ) -> bool {
        &&& new_m.wf()
        &&& new_m.active() == old_m.active()
        &&& registrable(old_m.taken(), pins) <==> r is Ok
        &&& repeated(pins).len() > 0 ==> (r matches Err(PinError::DuplicatePins { duplicates })
            && duplicates@ == repeated(pins))
        &&& repeated(pins).len() == 0 && common(old_m.taken(), pins).len() > 0 ==> (r matches Err(
            PinError::PinConflict { conflicts },
        ) && conflicts@ == common(old_m.taken(), pins))
        &&& r is Err ==> new_m.occupants() == old_m.occupants()
        &&& r matches Ok(p) ==> defines_port(pins, p.occupied(), p.frame()) && new_m.occupants()
            == old_m.occupants().push(pins)
    }

    /// An empty registry.
    pub fn new() -> (r: Self)
        ensures
            r.occupants() == Seq::<Seq<GpioPins>>::empty(),
            r.active() == Seq::<A>::empty(),
            r.wf(),
    {
        let r = PinManager { pin_occupants: Vec::new(), active_ports: Vec::new() };
        assert(r.occupants() =~= Seq::<Seq<GpioPins>>::empty());
        r
    }

    /// Drops every occupant and every registration for activation.
    pub fn clear(&mut self)
        ensures
            final(self).occupants() == Seq::<Seq<GpioPins>>::empty(),
            final(self).active() == Seq::<A>::empty(),
            final(self).wf(),
    {
        self.active_ports.clear();
        self.pin_occupants.clear();
        assert(self.occupants() =~= Seq::<Seq<GpioPins>>::empty());
    }

    /// The claimed pins that `pins` names, in the order of the occupants.
    pub(crate) fn conflicts(&self, pins: &Vec<GpioPins>) -> (r: Vec<GpioPins>)
        ensures
            r@ == common(self.taken(), pins@),
    {
        let mut conflicts: Vec<GpioPins> = Vec::new();
        let mut k: usize = 0;
        while k < self.pin_occupants.len()
            invariant
                k <= self.pin_occupants.len(),
                conflicts@ == common(flat(self.occupants().take(k as int)), pins@),
            decreases self.pin_occupants.len() - k,
        {
            proof {
                let occ = self.occupants();
                assert(occ.take(k as int + 1).drop_last() =~= occ.take(k as int));
                assert(occ.take(k as int + 1).last() == self.pin_occupants@[k as int]@);
                lemma_common_concat(flat(occ.take(k as int)), occ[k as int], pins@);
            }
            append_common(&mut conflicts, &self.pin_occupants[k], pins);
            k += 1;
        }
        assert(self.occupants().take(k as int) =~= self.occupants());
        conflicts
    }

    /// Succeeds when no live occupant claims any of `pins_to_check`; otherwise names the
    /// claimed pins among them. Changes nothing.
    pub fn check_free_pins(&self, pins_to_check: &Vec<GpioPins>) -> (r: Result<(), PinError>)
        ensures
            (common(self.taken(), pins_to_check@).len() == 0) <==> r is Ok,
            r matches Err(e) ==> e matches PinError::PinConflict { conflicts } && conflicts@
                == common(self.taken(), pins_to_check@),
    {
        let conflicts = self.conflicts(pins_to_check);
        if conflicts.len() == 0 {
            Ok(())
        } else {
            Err(PinError::PinConflict { conflicts })
        }
    }

    /// Records `pins`, which repeat no pin, as a new occupant, unless a live occupant
    /// claims one of them already.
    fn claim(&mut self, pins: &Vec<GpioPins>) -> (r: Result<(), PinError>)
        requires
            old(self).wf(),
            repeated(pins@).len() == 0,
        ensures
            final(self).wf(),
            final(self).active() == old(self).active(),
            (common(old(self).taken(), pins@).len() == 0) <==> r is Ok,
            r matches Err(e) ==> e matches PinError::PinConflict { conflicts } && conflicts@
                == common(old(self).taken(), pins@),
            r is Err ==> final(self).occupants() == old(self).occupants(),
            r is Ok ==> final(self).occupants() == old(self).occupants().push(pins@),
    {
        let conflicts = self.conflicts(pins);
        if conflicts.len() > 0 {
            return Err(PinError::PinConflict { conflicts });
        }
        proof {
            lemma_repeated_names_repeats(pins@);
            lemma_common_contains(self.taken(), pins@);
            assert forall|i: int| 0 <= i < self.taken().len() implies !pins@.contains(
                self.taken()[i],
            ) by {
                if pins@.contains(self.taken()[i]) {
                    assert(common(self.taken(), pins@).contains(self.taken()[i]));
                }
            }
            lemma_concat_no_duplicates(self.taken(), pins@);
            lemma_flat_push(self.occupants(), pins@);
        }
        let ghost before = self.occupants();
        self.pin_occupants.push(copy_pins(pins));
        assert(self.occupants() =~= before.push(pins@));
        Ok(())
    }

    /// Creates an output port over `pins`, all values low, and records its pins. A definition
    /// that repeats a pin is refused first; one that names a claimed pin next.
    #[allow(non_snake_case)]
    pub fn register_OutputPort(&mut self, pins: &Vec<GpioPins>) -> (r: Result<OutputPort, PinError>)
        requires
            old(self).wf(),
        ensures
            Self::registered(*old(self), *final(self), pins@, r),
    {
        let port = match OutputPort::new(pins) {
            Ok(port) => port,
            Err(e) => return Err(e),
        };
        match self.claim(pins) {
            Ok(()) => Ok(port),
            Err(e) => Err(e),
        }
    }

    /// Creates an input port over `pins`, all values low, and records its pins. A definition
    /// that repeats a pin is refused first; one that names a claimed pin next.
    #[allow(non_snake_case)]
    pub fn register_InputPort(&mut self, pins: &Vec<GpioPins>) -> (r: Result<InputPort, PinError>)
        requires
            old(self).wf(),
        ensures
            Self::registered(*old(self), *final(self), pins@, r),
    {
        let port = match InputPort::new(pins) {
            Ok(port) => port,
            Err(e) => return Err(e),
        };
        match self.claim(pins) {
            Ok(()) => Ok(port),
            Err(e) => Err(e),
        }
    }

    /// Registers a port for activation on every scheduler cycle.
    pub fn add_active_port(&mut self, new_active_port: A)
        ensures
            final(self).active() == old(self).active().push(new_active_port),
            final(self).occupants() == old(self).occupants(),
    {
        self.active_ports.push(new_active_port);
    }

    /// The number of ports registered for activation.
    pub fn active_port_count(&self) -> (r: usize)
        ensures
            r == self.active().len(),
    {
        self.active_ports.len()
    }

    /// The port registered for activation at `index`.
    pub fn active_port(&self, index: usize) -> (r: &A)
        requires
            index < self.active().len(),
        ensures
            *r == self.active()[index as int],
    {
        &self.active_ports[index]
    }

    /// The port registered for activation at `index`, for changes in place.
    pub fn active_port_mut(&mut self, index: usize) -> (r: &mut A)
        requires
            index < old(self).active().len(),
        ensures
            *r == old(self).active()[index as int],
            final(self).active() == old(self).active().update(index as int, *final(r)),
            final(self).occupants() == old(self).occupants(),
    {
        &mut self.active_ports[index]
    }

    /// One scheduler cycle: activates, in order, every registered port that is neither
    /// paused nor stopped.
    pub fn activate_active_ports(&mut self)
        ensures
            final(self).occupants() == old(self).occupants(),
            final(self).active().len() == old(self).active().len(),
            forall|i: int|
                0 <= i < old(self).active().len() ==> if skipped(#[trigger] old(self).active()[i]) {
                    final(self).active()[i] == old(self).active()[i]
                } else {
                    old(self).active()[i].activates_to(final(self).active()[i])
                },
    {
        let ghost start = self.active_ports@;
        let mut pending: Vec<A> = Vec::new();
        std::mem::swap(&mut self.active_ports, &mut pending);
        let mut done: Vec<A> = Vec::new();
        while pending.len() > 0
            invariant
                done@.len() + pending@.len() == start.len(),
                pending@ == start.skip(done@.len() as int),
                forall|i: int|
                    0 <= i < done@.len() ==> if skipped(#[trigger] start[i]) {
                        done@[i] == start[i]
                    } else {
                        start[i].activates_to(done@[i])
                    },
            decreases pending.len(),
        {
            let ghost n = done@.len();
            let mut port = pending.remove(0);
            assert(port == start[n as int]);
            if !port.is_paused() && !port.is_stopped() {
                port.activate();
            }
            done.push(port);
            assert(pending@ =~= start.skip(done@.len() as int));
        }
        self.active_ports = done;
    }
}

/// No two live occupants share a pin, and an occupant repeats no pin; a registration
/// that overlaps a claimed pin is refused and leaves the occupants as they were.
pub proof fn lemma_occupants_disjoint<A: ActivePort, P: Port>(
    m: PinManager<A>,
    a: int,
    b: int,
    pins: Seq<GpioPins>,
    m2: PinManager<A>,
    r: Result<P, PinError>,
)
    requires
        m.wf(),
        0 <= a < m.occupants().len(),
        0 <= b < m.occupants().len(),
        a != b,
        PinManager::registered(m, m2, pins, r),
    ensures
        m.occupants()[a].no_duplicates(),
        forall|p: GpioPins|
            !(m.occupants()[a].contains(p) && #[trigger] m.occupants()[b].contains(p)),
        (exists|p: GpioPins| pins.contains(p) && #[trigger] m.taken().contains(p)) ==> (r is Err
            && m2.occupants() == m.occupants()),
{
    lemma_flat_disjoint(m.occupants(), a, b);
    lemma_common_contains(m.taken(), pins);
    if exists|p: GpioPins| pins.contains(p) && #[trigger] m.taken().contains(p) {
        let p = choose|p: GpioPins| pins.contains(p) && #[trigger] m.taken().contains(p);
        assert(common(m.taken(), pins).contains(p));
    }
}

/// A definition that repeats a pin is refused with the duplicate error, which names
/// exactly the pins that occur more than once, and the occupants stay as they were.
pub proof fn lemma_duplicates_reported<A: ActivePort, P: Port>(
    m: PinManager<A>,
    pins: Seq<GpioPins>,
    m2: PinManager<A>,
    r: Result<P, PinError>,
)
    requires
        m.wf(),
        PinManager::registered(m, m2, pins, r),
        !pins.no_duplicates(),
    ensures
        r matches Err(PinError::DuplicatePins { duplicates }) && duplicates@.to_set()
            == repeated_pins(pins),
        m2.occupants() == m.occupants(),
{
    lemma_repeated_names_repeats(pins);
}

/// Each occupant of a consistent registry is free of repeats.
proof fn lemma_occupant_no_duplicates(occ: Seq<Seq<GpioPins>>, a: int)
    requires
        flat(occ).no_duplicates(),
        0 <= a < occ.len(),
    ensures
        occ[a].no_duplicates(),
{
    if occ.len() > 1 {
        let b = if a == 0 { 1int } else { 0int };
        lemma_flat_disjoint(occ, a, b);
    } else {
        assert(flat(occ) == flat(occ.drop_last()) + occ.last());
        assert(occ.drop_last().len() == 0);
        assert(flat(occ) =~= occ[a]);
    }
}

/// After a reset, registering again the pin definitions that were live before it, in
/// their order of registration, succeeds at every step.
pub proof fn lemma_reregister_after_clear<A: ActivePort>(m: PinManager<A>, cleared: PinManager<A>)
    requires
        m.wf(),
        cleared.occupants() == Seq::<Seq<GpioPins>>::empty(),
    ensures
        cleared.taken() == Seq::<GpioPins>::empty(),
        forall|k: int|
            0 <= k < m.occupants().len() ==> registrable(
                #[trigger] flat(m.occupants().take(k)),
                m.occupants()[k],
            ),
{
    let occ = m.occupants();
    assert forall|k: int| 0 <= k < occ.len() implies registrable(
        #[trigger] flat(occ.take(k)),
        occ[k],
    ) by {
        lemma_occupant_no_duplicates(occ, k);
        lemma_repeated_names_repeats(occ[k]);
        let before = flat(occ.take(k));
        lemma_common_contains(before, occ[k]);
        assert forall|i: int| 0 <= i < before.len() implies !occ[k].contains(before[i]) by {
            let p = before[i];
            if occ[k].contains(p) {
                assert(before.contains(p));
                lemma_flat_member(occ.take(k), p);
                let a = choose|a: int| 0 <= a < occ.take(k).len() && #[trigger] occ.take(k)[a].contains(p);
                assert(occ.take(k)[a] == occ[a]);
                lemma_flat_disjoint(occ, a, k);
            }
        }
    }
}

} // verus!
