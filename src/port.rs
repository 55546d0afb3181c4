use vstd::prelude::*;

use crate::error::PinError;
use crate::pins::{GpioPins, PinValue};
use crate::pinset::{copy_pins, find_duplicates, repeated, lemma_repeated_names_repeats};

verus! {

/// A frame of `n` low values.
pub open spec fn all_low(n: nat) -> Seq<PinValue> {
    Seq::new(n, |i: int| PinValue::Low)
}

/// A frame of `n` low values.
pub fn low_frame(n: usize) -> (r: Vec<PinValue>)
    ensures
        r@ == all_low(n as nat),
{
    let mut r: Vec<PinValue> = Vec::new();
    let mut i: usize = 0;
    while i < n
        invariant
            i <= n,
            r@ == all_low(i as nat),
        decreases n - i,
    {
        r.push(PinValue::Low);
        assert(r@ =~= all_low(i as nat + 1));
        i += 1;
    }
    r
}

/// A copy of `v`.
fn copy_frame(v: &Vec<PinValue>) -> (r: Vec<PinValue>)
    ensures
        r@ == v@,
{
    let mut r: Vec<PinValue> = Vec::new();
    let mut i: usize = 0;
    while i < v.len()
        invariant
            i <= v.len(),
            r@ == v@.subrange(0, i as int),
        decreases v.len() - i,
    {
        r.push(v[i]);
        assert(r@ =~= v@.subrange(0, i as int + 1));
        i += 1;
    }
    assert(v@.subrange(0, v.len() as int) =~= v@);
    r
}

/// A copy of `v` with the value at `index` replaced by `value`.
pub fn frame_with(v: &Vec<PinValue>, index: usize, value: PinValue) -> (r: Vec<PinValue>)
    requires
        index < v.len(),
    ensures
        r@ == v@.update(index as int, value),
{
    let mut r: Vec<PinValue> = Vec::new();
    let mut i: usize = 0;
    while i < v.len()
        invariant
            i <= v.len(),
            index < v.len(),
            r@ == v@.update(index as int, value).subrange(0, i as int),
        decreases v.len() - i,
    {
        if i == index {
            r.push(value);
        } else {
            r.push(v[i]);
        }
        assert(r@ =~= v@.update(index as int, value).subrange(0, i as int + 1));
        i += 1;
    }
    assert(v@.update(index as int, value).subrange(0, v.len() as int) =~= v@.update(index as int, value));
    r
}

/// Anything that claims exclusive use of a set of pins.
pub trait PinOccupant {
    /// The pins claimed, in the order in which they were defined.
    spec fn occupied(&self) -> Seq<GpioPins>;

    /// The claimed pins, each once.
    fn get_occupied_pins(&self) -> (r: Vec<GpioPins>)
        ensures
            r@ == self.occupied(),
            r@.no_duplicates(),
    ;
}

/// An ordered group of distinct pins with a frame holding one value per pin.
pub trait Port: PinOccupant {
    /// The current value of each pin position.
    spec fn frame(&self) -> Seq<PinValue>;

    #[allow(non_snake_case)]
    fn get_PortFrame(&self) -> (r: &Vec<PinValue>)
        ensures
            r@ == self.frame(),
            r@.len() == self.occupied().len(),
    ;
}

/// A port whose frame the application writes.
pub trait WritablePort: Port {
    /// Replaces the whole frame; the new frame must have one value per pin.
    #[allow(non_snake_case)]
    fn set_PortFrame(&mut self, new_state: Vec<PinValue>) -> (r: Result<(), PinError>)
        ensures
            (new_state@.len() == old(self).occupied().len()) <==> r is Ok,
            final(self).occupied() == old(self).occupied(),
            r is Ok ==> final(self).frame() == new_state@,
            r matches Err(e) ==> final(self).frame() == old(self).frame() && e == (
            PinError::LengthMismatch {
                expected: old(self).occupied().len() as usize,
                found: new_state@.len() as usize,
            }),
    ;

    /// Writes the value at position `pin` and hands back the value it replaced.
    fn set_pin_state(&mut self, pin: usize, state: PinValue) -> (r: Result<PinValue, PinError>)
        ensures
            (pin < old(self).occupied().len()) <==> r is Ok,
            final(self).occupied() == old(self).occupied(),
            r matches Ok(v) ==> v == old(self).frame()[pin as int] && final(self).frame()
                == old(self).frame().update(pin as int, state),
            r matches Err(e) ==> final(self).frame() == old(self).frame() && e == (
            PinError::IndexOutOfRange { index: pin, len: old(self).occupied().len() as usize }),
    ;
}

/// Whether a port with these pins and this frame is a fresh port for the definition
/// `pins`: the same pins in the same order, every value low.
pub open spec fn defines_port(pins: Seq<GpioPins>, occupied: Seq<GpioPins>, frame: Seq<PinValue>) -> bool {
    occupied == pins && frame == all_low(pins.len())
}

/// A port whose frame is driven onto its pins.
#[derive(Debug)]
pub struct OutputPort {
    pins_of_port: Vec<GpioPins>,
    state: Vec<PinValue>,
}

impl OutputPort {
    #[verifier::type_invariant]
    spec fn well_formed(&self) -> bool {
        self.pins_of_port@.no_duplicates() && self.state@.len() == self.pins_of_port@.len()
    }

    /// A port over `pins` with every value low, unless a pin repeats.
    pub(crate) fn new(pins: &Vec<GpioPins>) -> (r: Result<OutputPort, PinError>)
        ensures
            (repeated(pins@).len() == 0) <==> r is Ok,
            r matches Ok(p) ==> defines_port(pins@, p.occupied(), p.frame()),
            r matches Err(e) ==> e matches PinError::DuplicatePins { duplicates } && duplicates@
                == repeated(pins@),
    {
        let duplicates = find_duplicates(pins);
        if duplicates.len() > 0 {
            return Err(PinError::DuplicatePins { duplicates });
        }
        proof {
            lemma_repeated_names_repeats(pins@);
        }
        let pins_of_port = copy_pins(pins);
        let state = low_frame(pins.len());
        Ok(OutputPort { pins_of_port, state })
    }

    /// The same port with its frame replaced by `frame`.
    pub(crate) fn with_frame(&self, frame: Vec<PinValue>) -> (r: OutputPort)
        requires
            frame@.len() == self.occupied().len(),
        ensures
            r.occupied() == self.occupied(),
            r.frame() == frame@,
    {
        proof {
            use_type_invariant(self);
        }
        OutputPort { pins_of_port: copy_pins(&self.pins_of_port), state: frame }
    }
}

impl PinOccupant for OutputPort {
    closed spec fn occupied(&self) -> Seq<GpioPins> {
        self.pins_of_port@
    }

    fn get_occupied_pins(&self) -> (r: Vec<GpioPins>) {
        proof {
            use_type_invariant(self);
        }
        copy_pins(&self.pins_of_port)
    }
}

impl Port for OutputPort {
    closed spec fn frame(&self) -> Seq<PinValue> {
        self.state@
    }

    fn get_PortFrame(&self) -> (r: &Vec<PinValue>) {
        proof {
            use_type_invariant(self);
        }
        &self.state
    }
}

impl WritablePort for OutputPort {
    fn set_PortFrame(&mut self, new_state: Vec<PinValue>) -> (r: Result<(), PinError>) {
        proof {
            use_type_invariant(&*self);
        }
        if new_state.len() != self.pins_of_port.len() {
            return Err(
                PinError::LengthMismatch {
                    expected: self.pins_of_port.len(),
                    found: new_state.len(),
                },
            );
        }
        self.state = new_state;
        Ok(())
    }

    fn set_pin_state(&mut self, pin: usize, state: PinValue) -> (r: Result<PinValue, PinError>) {
        proof {
            use_type_invariant(&*self);
        }
        if pin >= self.state.len() {
            return Err(PinError::IndexOutOfRange { index: pin, len: self.pins_of_port.len() });
        }
        let previous = self.state[pin];
        self.state = frame_with(&self.state, pin, state);
        Ok(previous)
    }
}

/// A port whose frame holds what was last sampled from its pins.
#[derive(Debug)]
pub struct InputPort {
    pins_of_port: Vec<GpioPins>,
    state: Vec<PinValue>,
}

impl InputPort {
    #[verifier::type_invariant]
    spec fn well_formed(&self) -> bool {
        self.pins_of_port@.no_duplicates() && self.state@.len() == self.pins_of_port@.len()
    }

    /// A port over `pins` with every value low, unless a pin repeats.
    pub(crate) fn new(pins: &Vec<GpioPins>) -> (r: Result<InputPort, PinError>)
        ensures
            (repeated(pins@).len() == 0) <==> r is Ok,
            r matches Ok(p) ==> defines_port(pins@, p.occupied(), p.frame()),
            r matches Err(e) ==> e matches PinError::DuplicatePins { duplicates } && duplicates@
                == repeated(pins@),
    {
        let duplicates = find_duplicates(pins);
        if duplicates.len() > 0 {
            return Err(PinError::DuplicatePins { duplicates });
        }
        proof {
            lemma_repeated_names_repeats(pins@);
        }
        let pins_of_port = copy_pins(pins);
        let state = low_frame(pins.len());
        Ok(InputPort { pins_of_port, state })
    }

    /// The same port with its frame replaced by `frame`.
    pub(crate) fn with_frame(&self, frame: Vec<PinValue>) -> (r: InputPort)
        requires
            frame@.len() == self.occupied().len(),
        ensures
            r.occupied() == self.occupied(),
            r.frame() == frame@,
    {
        proof {
            use_type_invariant(self);
        }
        InputPort { pins_of_port: copy_pins(&self.pins_of_port), state: frame }
    }

    /// Stores a freshly sampled frame. When its contents differ from the stored frame,
    /// the frame it replaced is handed back so that a change notification can fire.
    pub fn update_frame(&mut self, sampled: Vec<PinValue>) -> (r: Result<Option<Vec<PinValue>>, PinError>)
        ensures
            (sampled@.len() == old(self).occupied().len()) <==> r is Ok,
            final(self).occupied() == old(self).occupied(),
            r is Ok ==> final(self).frame() == sampled@,
            r matches Ok(change) ==> (change is Some <==> sampled@ != old(self).frame()),
            r matches Ok(Some(previous)) ==> previous@ == old(self).frame(),
            r matches Err(e) ==> final(self).frame() == old(self).frame() && e == (
            PinError::LengthMismatch {
                expected: old(self).occupied().len() as usize,
                found: sampled@.len() as usize,
            }),
    {
        proof {
            use_type_invariant(&*self);
        }
        if sampled.len() != self.pins_of_port.len() {
            return Err(
                PinError::LengthMismatch { expected: self.pins_of_port.len(), found: sampled.len() },
            );
        }
        let mut i: usize = 0;
        let mut changed = false;
        while i < sampled.len()
            invariant
                i <= sampled.len() == self.state.len(),
                !changed ==> forall|k: int| 0 <= k < i ==> sampled@[k] == self.state@[k],
                changed ==> sampled@ != self.state@,
            decreases sampled.len() - i,
        {
            if sampled[i] != self.state[i] {
                changed = true;
            }
            i += 1;
        }
        if !changed {
            assert(sampled@ =~= self.state@);
        }
        let previous = copy_frame(&self.state);
        self.state = sampled;
        if changed {
            Ok(Some(previous))
        } else {
            Ok(None)
        }
    }
}

impl PinOccupant for InputPort {
    closed spec fn occupied(&self) -> Seq<GpioPins> {
        self.pins_of_port@
    }

    fn get_occupied_pins(&self) -> (r: Vec<GpioPins>) {
        proof {
            use_type_invariant(self);
        }
        copy_pins(&self.pins_of_port)
    }
}

impl Port for InputPort {
    closed spec fn frame(&self) -> Seq<PinValue> {
        self.state@
    }

    fn get_PortFrame(&self) -> (r: &Vec<PinValue>) {
        proof {
            use_type_invariant(self);
        }
        &self.state
    }
}

} // verus!
