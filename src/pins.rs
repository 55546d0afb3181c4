use vstd::prelude::*;

use crate::error::PinError;

verus! {

/// One of the physical pins that ports can claim.
#[allow(non_camel_case_types)]
#[derive(Clone, Copy, Debug, PartialEq, Eq, Hash, Structural)]
pub enum GpioPins {
        GPIO_01,
        GPIO_02,
        GPIO_03,
        GPIO_04,
        GPIO_05,
        GPIO_06,
        GPIO_07,
        GPIO_08,
        GPIO_09,
        GPIO_10,
        GPIO_11,
        GPIO_12,
        GPIO_13,
        GPIO_14,
        GPIO_15,
        GPIO_16,
        GPIO_17,
        GPIO_18,
        GPIO_19,
        GPIO_20,
        GPIO_21,
        GPIO_22,
        GPIO_23,
        GPIO_24,
        GPIO_25,
        GPIO_26,
}

/// The logical level of one pin position in a port frame.
#[derive(Clone, Copy, Debug, PartialEq, Eq, Structural)]
pub enum PinValue {
    Low,
    High,
}

/// Number of distinct pin identifiers.
pub const PIN_COUNT: u8 = 26;

/// The number that identifies a pin: `GPIO_nn` is `nn`.
pub open spec fn pin_number(p: GpioPins) -> nat {
    match p {
            GpioPins::GPIO_01 => 1,
            GpioPins::GPIO_02 => 2,
            GpioPins::GPIO_03 => 3,
            GpioPins::GPIO_04 => 4,
            GpioPins::GPIO_05 => 5,
            GpioPins::GPIO_06 => 6,
            GpioPins::GPIO_07 => 7,
            GpioPins::GPIO_08 => 8,
            GpioPins::GPIO_09 => 9,
            GpioPins::GPIO_10 => 10,
            GpioPins::GPIO_11 => 11,
            GpioPins::GPIO_12 => 12,
            GpioPins::GPIO_13 => 13,
            GpioPins::GPIO_14 => 14,
            GpioPins::GPIO_15 => 15,
            GpioPins::GPIO_16 => 16,
            GpioPins::GPIO_17 => 17,
            GpioPins::GPIO_18 => 18,
            GpioPins::GPIO_19 => 19,
            GpioPins::GPIO_20 => 20,
            GpioPins::GPIO_21 => 21,
            GpioPins::GPIO_22 => 22,
            GpioPins::GPIO_23 => 23,
            GpioPins::GPIO_24 => 24,
            GpioPins::GPIO_25 => 25,
            GpioPins::GPIO_26 => 26,
    }
}

impl GpioPins {
    /// The pin's number, between 1 and `PIN_COUNT`.
    pub fn number(&self) -> (r: u8)
        ensures
            r as nat == pin_number(*self),
            1 <= r <= PIN_COUNT,
    {
        match *self {
            GpioPins::GPIO_01 => 1,
            GpioPins::GPIO_02 => 2,
            GpioPins::GPIO_03 => 3,
            GpioPins::GPIO_04 => 4,
            GpioPins::GPIO_05 => 5,
            GpioPins::GPIO_06 => 6,
            GpioPins::GPIO_07 => 7,
            GpioPins::GPIO_08 => 8,
            GpioPins::GPIO_09 => 9,
            GpioPins::GPIO_10 => 10,
            GpioPins::GPIO_11 => 11,
            GpioPins::GPIO_12 => 12,
            GpioPins::GPIO_13 => 13,
            GpioPins::GPIO_14 => 14,
            GpioPins::GPIO_15 => 15,
            GpioPins::GPIO_16 => 16,
            GpioPins::GPIO_17 => 17,
            GpioPins::GPIO_18 => 18,
            GpioPins::GPIO_19 => 19,
            GpioPins::GPIO_20 => 20,
            GpioPins::GPIO_21 => 21,
            GpioPins::GPIO_22 => 22,
            GpioPins::GPIO_23 => 23,
            GpioPins::GPIO_24 => 24,
            GpioPins::GPIO_25 => 25,
            GpioPins::GPIO_26 => 26,
        }
    }

    /// The pin with number `n`; numbers outside `1..=PIN_COUNT` are rejected.
    pub fn from_number(n: u8) -> (r: Result<GpioPins, PinError>)
        ensures
            (1 <= n <= PIN_COUNT) <==> r is Ok,
            r matches Ok(p) ==> pin_number(p) == n as nat,
            r matches Err(e) ==> e == (PinError::InvalidPinIdentifier { value: n }),
    {
        match n {
            1 => Ok(GpioPins::GPIO_01),
            2 => Ok(GpioPins::GPIO_02),
            3 => Ok(GpioPins::GPIO_03),
            4 => Ok(GpioPins::GPIO_04),
            5 => Ok(GpioPins::GPIO_05),
            6 => Ok(GpioPins::GPIO_06),
            7 => Ok(GpioPins::GPIO_07),
            8 => Ok(GpioPins::GPIO_08),
            9 => Ok(GpioPins::GPIO_09),
            10 => Ok(GpioPins::GPIO_10),
            11 => Ok(GpioPins::GPIO_11),
            12 => Ok(GpioPins::GPIO_12),
            13 => Ok(GpioPins::GPIO_13),
            14 => Ok(GpioPins::GPIO_14),
            15 => Ok(GpioPins::GPIO_15),
            16 => Ok(GpioPins::GPIO_16),
            17 => Ok(GpioPins::GPIO_17),
            18 => Ok(GpioPins::GPIO_18),
            19 => Ok(GpioPins::GPIO_19),
            20 => Ok(GpioPins::GPIO_20),
            21 => Ok(GpioPins::GPIO_21),
            22 => Ok(GpioPins::GPIO_22),
            23 => Ok(GpioPins::GPIO_23),
            24 => Ok(GpioPins::GPIO_24),
            25 => Ok(GpioPins::GPIO_25),
            26 => Ok(GpioPins::GPIO_26),
            _ => Err(PinError::InvalidPinIdentifier { value: n }),
        }
    }
}

/// Every pin, in order of number.
pub open spec fn all_pins() -> Seq<GpioPins> {
    seq![
        GpioPins::GPIO_01,
        GpioPins::GPIO_02,
        GpioPins::GPIO_03,
        GpioPins::GPIO_04,
        GpioPins::GPIO_05,
        GpioPins::GPIO_06,
        GpioPins::GPIO_07,
        GpioPins::GPIO_08,
        GpioPins::GPIO_09,
        GpioPins::GPIO_10,
        GpioPins::GPIO_11,
        GpioPins::GPIO_12,
        GpioPins::GPIO_13,
        GpioPins::GPIO_14,
        GpioPins::GPIO_15,
        GpioPins::GPIO_16,
        GpioPins::GPIO_17,
        GpioPins::GPIO_18,
        GpioPins::GPIO_19,
        GpioPins::GPIO_20,
        GpioPins::GPIO_21,
        GpioPins::GPIO_22,
        GpioPins::GPIO_23,
        GpioPins::GPIO_24,
        GpioPins::GPIO_25,
        GpioPins::GPIO_26,
    ]
}

/// A sequence of distinct pins holds at most `PIN_COUNT` of them.
pub proof fn lemma_distinct_pins_bounded(s: Seq<GpioPins>)
    requires
        s.no_duplicates(),
    ensures
        s.len() <= PIN_COUNT,
{
    let full = all_pins();
    assert forall|i: int| 0 <= i < full.len() implies pin_number(#[trigger] full[i]) == i + 1 by {
    }
    assert forall|p: GpioPins| #[trigger] full.contains(p) by {
        assert(full[pin_number(p) - 1] == p);
    }
    assert(full.no_duplicates()) by {
        assert forall|i: int, j: int| 0 <= i < full.len() && 0 <= j < full.len() && i != j implies full[i]
            != full[j] by {
            assert(pin_number(full[i]) != pin_number(full[j]));
        }
    }
    s.unique_seq_to_set();
    full.unique_seq_to_set();
    vstd::seq_lib::seq_to_set_is_finite(full);
    assert(s.to_set().subset_of(full.to_set()));
    vstd::set_lib::lemma_len_subset(s.to_set(), full.to_set());
}

/// Distinct pins have distinct numbers.
pub proof fn lemma_pin_number_injective(a: GpioPins, b: GpioPins)
    ensures
        pin_number(a) == pin_number(b) ==> a == b,
{
}

} // verus!
