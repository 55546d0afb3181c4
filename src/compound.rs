use vstd::prelude::*;

use crate::error::PinError;
use crate::pinmanager::{ActivePort, PinManager};
use crate::pins::{lemma_distinct_pins_bounded, GpioPins, PinValue};
use crate::pinset::{
    append_common, common, find_duplicates, join_pins, lemma_common_concat,
    lemma_common_contains, lemma_concat_no_duplicates, lemma_flat_push,
    lemma_repeated_names_repeats, repeated,
};
use crate::port::{all_low, frame_with, low_frame, InputPort, OutputPort, PinOccupant, Port};

verus! {

/// `index` with its `k` least significant binary digits dropped.
pub open spec fn shifted(index: nat, k: nat) -> nat
    decreases k,
{
    if k == 0 {
        index
    } else {
        shifted(index / 2, (k - 1) as nat)
    }
}

/// The frame that puts logical line `index` on `width` pins: only the pin at position
/// `index` high when direct; the binary digits of `index`, least significant first,
/// when demultiplexed.
pub open spec fn encode(index: nat, width: nat, demultiplexed: bool) -> Seq<PinValue> {
    Seq::new(
        width,
        |k: int|
            if (demultiplexed && shifted(index, k as nat) % 2 == 1) || (!demultiplexed && k
                == index) {
                PinValue::High
            } else {
                PinValue::Low
            },
    )
}

/// The duplicate entries that a matrix definition is refused for.
pub open spec fn matrix_duplicates(input: Seq<GpioPins>, output: Seq<GpioPins>) -> Seq<GpioPins> {
    repeated(input) + repeated(output)
}

/// The conflicting entries that a matrix definition is refused for: claimed pins that
/// either port names, then selector pins that the data port names too.
pub open spec fn matrix_conflicts(
    taken: Seq<GpioPins>,
    input: Seq<GpioPins>,
    output: Seq<GpioPins>,
) -> Seq<GpioPins> {
    common(taken, input + output) + common(input, output)
}

proof fn lemma_shifted_step(index: nat, k: nat)
    ensures
        shifted(index, k + 1) == shifted(index, k) / 2,
    decreases k,
{
    assert(shifted(index, k + 1) == shifted(index / 2, k));
    if k > 0 {
        lemma_shifted_step(index / 2, (k - 1) as nat);
        assert(shifted(index, k) == shifted(index / 2, (k - 1) as nat));
    } else {
        assert(shifted(index / 2, 0) == index / 2);
    }
}

proof fn lemma_cell_in_grid(i: int, o: int, rows: int, cols: int)
    by (nonlinear_arith)
    requires
        0 <= i < rows,
        0 <= o < cols,
    ensures
        0 <= i * cols + o < rows * cols,
        i * cols + cols <= rows * cols,
{
}

proof fn lemma_row_in_grid(i: int, rows: int, cols: int)
    by (nonlinear_arith)
    requires
        0 <= i < rows,
        0 <= cols,
    ensures
        0 <= i * cols,
        i * cols + cols <= rows * cols,
{
}

proof fn lemma_cells_distinct(i: int, o: int, i2: int, o2: int, cols: int)
    requires
        0 <= i,
        0 <= i2,
        0 <= o < cols,
        0 <= o2 < cols,
        i != i2 || o != o2,
    ensures
        i * cols + o != i2 * cols + o2,
{
    if i < i2 {
        assert(i * cols + cols <= i2 * cols) by (nonlinear_arith)
            requires
                i < i2,
                cols >= 0,
        ;
    } else if i2 < i {
        assert(i2 * cols + cols <= i * cols) by (nonlinear_arith)
            requires
                i2 < i,
                cols >= 0,
        ;
    }
}

proof fn lemma_position_in_grid(pos: int, rows: int, cols: int)
    requires
        0 <= pos < rows * cols,
        cols > 0,
    ensures
        pos == (pos / cols) * cols + pos % cols,
        0 <= pos / cols < rows,
        0 <= pos % cols < cols,
{
    vstd::arithmetic::div_mod::lemma_fundamental_div_mod(pos, cols);
    assert(cols * (pos / cols) == (pos / cols) * cols) by (nonlinear_arith);
    assert(pos / cols < rows) by (nonlinear_arith)
        requires
            0 <= pos < rows * cols,
            cols > 0,
            pos == (pos / cols) * cols + pos % cols,
            0 <= pos % cols,
    ;
}

/// The frame for logical line `index` on `width` pins.
pub fn encode_line(index: usize, width: usize, demultiplexed: bool) -> (r: Vec<PinValue>)
    ensures
        r@ == encode(index as nat, width as nat, demultiplexed),
{
    let ghost full = encode(index as nat, width as nat, demultiplexed);
    let mut r: Vec<PinValue> = Vec::new();
    let mut k: usize = 0;
    let mut rest: usize = index;
    while k < width
        invariant
            k <= width,
            rest as nat == shifted(index as nat, k as nat),
            full == encode(index as nat, width as nat, demultiplexed),
            r@ == full.take(k as int),
        decreases width - k,
    {
        let high = if demultiplexed {
            rest % 2 == 1
        } else {
            k == index
        };
        r.push(
            if high {
                PinValue::High
            } else {
                PinValue::Low
            },
        );
        proof {
            lemma_shifted_step(index as nat, k as nat);
        }
        rest = rest / 2;
        assert(r@ =~= full.take(k as int + 1));
        k += 1;
    }
    assert(full.take(width as int) =~= full);
    r
}

/// The `len` values of `v` from position `start` on.
fn slice_frame(v: &Vec<PinValue>, start: usize, len: usize) -> (r: Vec<PinValue>)
    requires
        start + len <= v.len(),
    ensures
        r@ == v@.subrange(start as int, start + len),
{
    let mut r: Vec<PinValue> = Vec::new();
    let mut k: usize = 0;
    while k < len
        invariant
            k <= len,
            start + len <= v.len(),
            r@ == v@.subrange(start as int, start + k),
        decreases len - k,
    {
        r.push(v[start + k]);
        assert(r@ =~= v@.subrange(start as int, start + k + 1));
        k += 1;
    }
    r
}

/// An input port of `I` selector pins and an output port of `O` data pins, seen as a
/// grid of `I * O` logical cells that a scan shows one step per activation.
pub struct MatrixOutput {
    input_port: (InputPort, bool),
    output_port: (OutputPort, bool),
    state: Vec<PinValue>,
    selected: usize,
    paused: bool,
    stopped: bool,
}

impl MatrixOutput {
    /// The selector pins, one per row.
    pub closed spec fn input_pins(&self) -> Seq<GpioPins> {
        self.input_port.0.occupied()
    }

    /// The data pins, one per column.
    pub closed spec fn output_pins(&self) -> Seq<GpioPins> {
        self.output_port.0.occupied()
    }

    /// What the selector pins are to show.
    pub closed spec fn selector_frame(&self) -> Seq<PinValue> {
        self.input_port.0.frame()
    }

    /// What the data pins are to show.
    pub closed spec fn data_frame(&self) -> Seq<PinValue> {
        self.output_port.0.frame()
    }

    pub closed spec fn input_demultiplexed(&self) -> bool {
        self.input_port.1
    }

    pub closed spec fn output_demultiplexed(&self) -> bool {
        self.output_port.1
    }

    /// The cells, row after row.
    pub closed spec fn cells(&self) -> Seq<PinValue> {
        self.state@
    }

    /// The scan step that the next activation shows.
    pub closed spec fn position(&self) -> nat {
        self.selected as nat
    }

    pub open spec fn rows(&self) -> nat {
        self.input_pins().len()
    }

    pub open spec fn columns(&self) -> nat {
        self.output_pins().len()
    }

    /// Where the cell in row `i` and column `o` sits among the cells.
    pub open spec fn cell_index(&self, i: nat, o: nat) -> int {
        (i * self.columns() + o) as int
    }

    /// The cell in row `i` and column `o`.
    pub open spec fn cell(&self, i: nat, o: nat) -> PinValue {
        self.cells()[self.cell_index(i, o)]
    }

    /// Steps in one full scan: one per cell when the data pins are demultiplexed, one
    /// per row otherwise.
    pub open spec fn scan_length(&self) -> nat {
        if self.output_demultiplexed() {
            self.rows() * self.columns()
        } else {
            self.rows()
        }
    }

    /// The row that scan step `pos` shows.
    pub open spec fn scan_row(&self, pos: nat) -> nat {
        if self.output_demultiplexed() {
            pos / self.columns()
        } else {
            pos
        }
    }

    /// The selector frame of scan step `pos`.
    pub open spec fn scan_selector(&self, pos: nat) -> Seq<PinValue> {
        if self.scan_length() == 0 {
            all_low(self.rows())
        } else {
            encode(self.scan_row(pos), self.rows(), self.input_demultiplexed())
        }
    }

    /// The data frame of scan step `pos`: the values of the row when the data pins are
    /// direct; otherwise the address of the step's column when its cell is high, and all
    /// low when it is not.
    pub open spec fn scan_data(&self, pos: nat) -> Seq<PinValue> {
        if self.scan_length() == 0 {
            all_low(self.columns())
        } else if self.output_demultiplexed() {
            let col = (pos as int % self.columns() as int) as nat;
            if self.cell(self.scan_row(pos), col) == PinValue::High {
                encode(col, self.columns(), true)
            } else {
                all_low(self.columns())
            }
        } else {
            self.cells().subrange(
                (pos * self.columns()) as int,
                (pos * self.columns() + self.columns()) as int,
            )
        }
    }

    /// The scan step after the current one.
    pub open spec fn next_position(&self) -> nat {
        if self.scan_length() == 0 {
            0
        } else {
            ((self.position() + 1) as int % self.scan_length() as int) as nat
        }
    }

    pub open spec fn wf(&self) -> bool {
        &&& self.cells().len() == self.rows() * self.columns()
        &&& self.rows() * self.columns() <= usize::MAX
        &&& (self.input_pins() + self.output_pins()).no_duplicates()
        &&& self.selector_frame().len() == self.rows()
        &&& self.data_frame().len() == self.columns()
        &&& if self.scan_length() == 0 {
            self.position() == 0
        } else {
            self.position() < self.scan_length()
        }
    }

    #[verifier::type_invariant]
    spec fn inv(&self) -> bool {
        self.wf()
    }

    /// Registers the selector pins as an input port and the data pins as an output port,
    /// both or neither, and sets every cell low. The two definitions together are held to
    /// the registry's checks: a pin repeated within one of them is a duplicate, a pin that
    /// is claimed already or that both name is a conflict.
    pub fn new<A: ActivePort>(
        pin_manager: &mut PinManager<A>,
        input_pins: &Vec<GpioPins>,
        output_pins: &Vec<GpioPins>,
        input_is_demultiplexed: bool,
        output_is_demultiplexed: bool,
    ) -> (r: Result<MatrixOutput, PinError>)
        requires
            old(pin_manager).wf(),
        ensures
            final(pin_manager).wf(),
            final(pin_manager).active() == old(pin_manager).active(),
            (matrix_duplicates(input_pins@, output_pins@).len() == 0 && matrix_conflicts(
                old(pin_manager).taken(),
                input_pins@,
                output_pins@,
            ).len() == 0) <==> r is Ok,
            matrix_duplicates(input_pins@, output_pins@).len() > 0 ==> (r matches Err(
                PinError::DuplicatePins { duplicates },
            ) && duplicates@ == matrix_duplicates(input_pins@, output_pins@)),
            matrix_duplicates(input_pins@, output_pins@).len() == 0 && matrix_conflicts(
                old(pin_manager).taken(),
                input_pins@,
                output_pins@,
            ).len() > 0 ==> (r matches Err(PinError::PinConflict { conflicts }) && conflicts@
                == matrix_conflicts(old(pin_manager).taken(), input_pins@, output_pins@)),
            r is Err ==> final(pin_manager).occupants() == old(pin_manager).occupants(),
            r matches Ok(m) ==> {
                &&& m.wf()
                &&& m.input_pins() == input_pins@
                &&& m.output_pins() == output_pins@
                &&& m.input_demultiplexed() == input_is_demultiplexed
                &&& m.output_demultiplexed() == output_is_demultiplexed
                &&& m.cells() == all_low(input_pins@.len() * output_pins@.len())
                &&& m.position() == 0
                &&& m.selector_frame() == all_low(input_pins@.len())
                &&& m.data_frame() == all_low(output_pins@.len())
                &&& !m.paused()
                &&& !m.stopped()
                &&& final(pin_manager).occupants() == old(pin_manager).occupants().push(
                    input_pins@,
                ).push(output_pins@)
            },
    {
        let ghost taken = pin_manager.taken();
        let ghost occ = pin_manager.occupants();
        let duplicates = join_pins(&find_duplicates(input_pins), &find_duplicates(output_pins));
        if duplicates.len() > 0 {
            return Err(PinError::DuplicatePins { duplicates });
        }
        let joined = join_pins(input_pins, output_pins);
        let mut conflicts = pin_manager.conflicts(&joined);
        append_common(&mut conflicts, input_pins, output_pins);
        if conflicts.len() > 0 {
            return Err(PinError::PinConflict { conflicts });
        }
        let ghost inp = input_pins@;
        let ghost outp = output_pins@;
        proof {
            lemma_repeated_names_repeats(inp);
            lemma_repeated_names_repeats(outp);
            lemma_common_contains(taken, inp + outp);
            lemma_common_contains(taken, inp);
            lemma_common_contains(taken, outp);
            lemma_common_contains(inp, outp);
            assert forall|i: int| 0 <= i < taken.len() implies !inp.contains(taken[i])
                && !outp.contains(taken[i]) by {
                if inp.contains(taken[i]) {
                    let j = choose|j: int| 0 <= j < inp.len() && inp[j] == taken[i];
                    assert((inp + outp)[j] == taken[i]);
                }
                if outp.contains(taken[i]) {
                    let j = choose|j: int| 0 <= j < outp.len() && outp[j] == taken[i];
                    assert((inp + outp)[inp.len() + j] == taken[i]);
                }
            }
            lemma_flat_push(occ, inp);
            lemma_common_concat(taken, inp, outp);
            lemma_concat_no_duplicates(inp, outp);
            lemma_distinct_pins_bounded(inp);
            lemma_distinct_pins_bounded(outp);
            assert(inp.len() * outp.len() <= 26 * 26) by (nonlinear_arith)
                requires
                    inp.len() <= 26,
                    outp.len() <= 26,
            ;
        }
        let input_port = match pin_manager.register_InputPort(input_pins) {
            Ok(port) => port,
            Err(e) => return Err(e),
        };
        let output_port = match pin_manager.register_OutputPort(output_pins) {
            Ok(port) => port,
            Err(e) => return Err(e),
        };
        let state = low_frame(input_pins.len() * output_pins.len());
        Ok(
            MatrixOutput {
                input_port: (input_port, input_is_demultiplexed),
                output_port: (output_port, output_is_demultiplexed),
                state,
                selected: 0,
                paused: false,
                stopped: false,
            },
        )
    }

    /// The number of rows, one per selector pin.
    pub fn row_count(&self) -> (r: usize)
        ensures
            r == self.rows(),
    {
        self.input_port.0.get_PortFrame().len()
    }

    /// The number of columns, one per data pin.
    pub fn column_count(&self) -> (r: usize)
        ensures
            r == self.columns(),
    {
        self.output_port.0.get_PortFrame().len()
    }

    /// The number of addressable cells.
    pub fn cell_count(&self) -> (r: usize)
        ensures
            r == self.rows() * self.columns(),
    {
        proof {
            use_type_invariant(self);
        }
        self.state.len()
    }

    /// The selector port.
    pub fn input_port(&self) -> (r: &InputPort)
        ensures
            r.occupied() == self.input_pins(),
            r.frame() == self.selector_frame(),
    {
        &self.input_port.0
    }

    /// The data port.
    pub fn output_port(&self) -> (r: &OutputPort)
        ensures
            r.occupied() == self.output_pins(),
            r.frame() == self.data_frame(),
    {
        &self.output_port.0
    }

    pub fn input_is_demultiplexed(&self) -> (r: bool)
        ensures
            r == self.input_demultiplexed(),
    {
        self.input_port.1
    }

    pub fn output_is_demultiplexed(&self) -> (r: bool)
        ensures
            r == self.output_demultiplexed(),
    {
        self.output_port.1
    }

    /// The value of the cell in row `i` and column `o`.
    pub fn get_logical_value(&self, i: usize, o: usize) -> (r: Result<PinValue, PinError>)
        ensures
            self.wf(),
            (i < self.rows() && o < self.columns()) <==> r is Ok,
            r matches Ok(v) ==> v == self.cell(i as nat, o as nat),
            r matches Err(e) ==> e == (if i >= self.rows() {
                PinError::IndexOutOfRange { index: i, len: self.rows() as usize }
            } else {
                PinError::IndexOutOfRange { index: o, len: self.columns() as usize }
            }),
    {
        proof {
            use_type_invariant(self);
        }
        let rows = self.row_count();
        let cols = self.column_count();
        if i >= rows {
            return Err(PinError::IndexOutOfRange { index: i, len: rows });
        }
        if o >= cols {
            return Err(PinError::IndexOutOfRange { index: o, len: cols });
        }
        proof {
            lemma_cell_in_grid(i as int, o as int, rows as int, cols as int);
        }
        Ok(self.state[i * cols + o])
    }

    /// Writes the cell in row `i` and column `o`; the pins show it from a later activation on.
    pub fn set_logical_value(&mut self, i: usize, o: usize, value: PinValue) -> (r: Result<(), PinError>)
        ensures
            final(self).wf(),
            (i < old(self).rows() && o < old(self).columns()) <==> r is Ok,
            r is Ok ==> final(self).cells() == old(self).cells().update(
                old(self).cell_index(i as nat, o as nat),
                value,
            ),
            r is Err ==> final(self).cells() == old(self).cells(),
            r matches Err(e) ==> e == (if i >= old(self).rows() {
                PinError::IndexOutOfRange { index: i, len: old(self).rows() as usize }
            } else {
                PinError::IndexOutOfRange { index: o, len: old(self).columns() as usize }
            }),
            final(self).input_pins() == old(self).input_pins(),
            final(self).output_pins() == old(self).output_pins(),
            final(self).input_demultiplexed() == old(self).input_demultiplexed(),
            final(self).output_demultiplexed() == old(self).output_demultiplexed(),
            final(self).selector_frame() == old(self).selector_frame(),
            final(self).data_frame() == old(self).data_frame(),
            final(self).position() == old(self).position(),
            final(self).paused() == old(self).paused(),
            final(self).stopped() == old(self).stopped(),
    {
        proof {
            use_type_invariant(&*self);
        }
        let rows = self.row_count();
        let cols = self.column_count();
        if i >= rows {
            return Err(PinError::IndexOutOfRange { index: i, len: rows });
        }
        if o >= cols {
            return Err(PinError::IndexOutOfRange { index: o, len: cols });
        }
        proof {
            lemma_cell_in_grid(i as int, o as int, rows as int, cols as int);
        }
        self.state = frame_with(&self.state, i * cols + o, value);
        Ok(())
    }
}

/// Writing one cell of a matrix gives that cell the value written and leaves every other
/// cell as it was.
pub proof fn lemma_cells_independent(
    m: MatrixOutput,
    i: nat,
    o: nat,
    value: PinValue,
    i2: nat,
    o2: nat,
)
    requires
        m.wf(),
        i < m.rows(),
        o < m.columns(),
        i2 < m.rows(),
        o2 < m.columns(),
    ensures
        m.cells().update(m.cell_index(i, o), value)[m.cell_index(i, o)] == value,
        (i != i2 || o != o2) ==> m.cells().update(m.cell_index(i, o), value)[m.cell_index(i2, o2)]
            == m.cell(i2, o2),
{
    lemma_cell_in_grid(i as int, o as int, m.rows() as int, m.columns() as int);
    lemma_cell_in_grid(i2 as int, o2 as int, m.rows() as int, m.columns() as int);
    if i != i2 || o != o2 {
        lemma_cells_distinct(i as int, o as int, i2 as int, o2 as int, m.columns() as int);
    }
}

impl PinOccupant for MatrixOutput {
    open spec fn occupied(&self) -> Seq<GpioPins> {
        self.input_pins() + self.output_pins()
    }

    fn get_occupied_pins(&self) -> (r: Vec<GpioPins>) {
        proof {
            use_type_invariant(self);
        }
        join_pins(&self.input_port.0.get_occupied_pins(), &self.output_port.0.get_occupied_pins())
    }
}

impl ActivePort for MatrixOutput {
    closed spec fn paused(&self) -> bool {
        self.paused
    }

    closed spec fn stopped(&self) -> bool {
        self.stopped
    }

    /// One activation shows the current scan step on the pins and moves to the next step.
    open spec fn activates_to(&self, next: Self) -> bool {
        &&& next.wf()
        &&& next.input_pins() == self.input_pins()
        &&& next.output_pins() == self.output_pins()
        &&& next.input_demultiplexed() == self.input_demultiplexed()
        &&& next.output_demultiplexed() == self.output_demultiplexed()
        &&& next.cells() == self.cells()
        &&& next.selector_frame() == self.scan_selector(self.position())
        &&& next.data_frame() == self.scan_data(self.position())
        &&& next.position() == self.next_position()
    }

    fn is_paused(&self) -> (r: bool) {
        self.paused
    }

    fn is_stopped(&self) -> (r: bool) {
        self.stopped
    }

    fn pause(&mut self, paused: bool) {
        proof {
            use_type_invariant(&*self);
        }
        self.paused = paused;
    }

    fn stop(&mut self) {
        proof {
            use_type_invariant(&*self);
        }
        self.stopped = true;
    }

    fn activate(&mut self) {
        proof {
            use_type_invariant(&*self);
        }
        let rows = self.row_count();
        let cols = self.column_count();
        let in_demux = self.input_port.1;
        let out_demux = self.output_port.1;
        let scan = if out_demux {
            rows * cols
        } else {
            rows
        };
        let pos = self.selected;
        let selector;
        let data;
        if scan == 0 {
            selector = low_frame(rows);
            data = low_frame(cols);
        } else if out_demux {
            proof {
                lemma_position_in_grid(pos as int, rows as int, cols as int);
            }
            let row = pos / cols;
            let col = pos % cols;
            selector = encode_line(row, rows, in_demux);
            if self.state[pos] == PinValue::High {
                data = encode_line(col, cols, true);
            } else {
                data = low_frame(cols);
            }
        } else {
            proof {
                lemma_row_in_grid(pos as int, rows as int, cols as int);
            }
            selector = encode_line(pos, rows, in_demux);
            data = slice_frame(&self.state, pos * cols, cols);
        }
        let next = if scan == 0 || pos + 1 == scan {
            0
        } else {
            pos + 1
        };
        proof {
            if scan > 0 {
                if pos + 1 == scan {
                    vstd::arithmetic::div_mod::lemma_mod_self_0(scan as int);
                } else {
                    vstd::arithmetic::div_mod::lemma_small_mod((pos + 1) as nat, scan as nat);
                }
            }
        }
        self.input_port = (self.input_port.0.with_frame(selector), in_demux);
        self.output_port = (self.output_port.0.with_frame(data), out_demux);
        self.selected = next;
    }
}

} // verus!
