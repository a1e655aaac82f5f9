//! Truth tables: generation from a circuit, text renderings, and
//! comparison against an expected table.
use vstd::prelude::*;
use crate::component::GateKind;
use crate::component::{spec_input_count, spec_output_count, spec_short_code};
use crate::graph::{copy_signals, first_net_where, id_of, net_feeds, net_from, Circuit, ComponentId, NetView, NodeView, PortEndpoint};
use crate::graph::SubcircuitDef;
use crate::signal::from_bool;
use crate::sim::{and_all, count_high, eval_plain, lib_ok_for, or_all, probe_node, sig_at, spec_eval, spec_settle, weight, Simulator};
use crate::slots::{
    component_slots, component_slots_get, component_slots_get_mut, component_slots_keys, lemma_slot_set_keys,
    slot_get, slot_keys, slot_set, slots_wf, ComponentSlots,
};
use crate::signal::Signal;
use crate::text::{append_decimal, append_joined, append_repeat, append_str, byte_len, join, push_char, spec_decimal, string_byte_len, views};

verus! {

/// Why a truth table cannot be generated.
#[derive(Debug, Clone, Copy, PartialEq, Eq, Structural)]
pub enum VerifyError {
    NoInputs,
    NoOutputs,
    TooManyInputs(usize),
}

/// The message describing an error.
pub open spec fn spec_message(e: VerifyError) -> Seq<char> {
    match e {
        VerifyError::NoInputs => "No inputs found in the circuit to generate truth table"@,
        VerifyError::NoOutputs => "No outputs found in the circuit to evaluate"@,
        VerifyError::TooManyInputs(n) => "Too many inputs ("@ + spec_decimal(n as nat) + "); maximum supported is 10"@,
    }
}

impl VerifyError {
    /// The message describing the error.
    pub fn message(&self) -> (r: String)
        ensures
            r@ == spec_message(*self),
    {
        match self {
            VerifyError::NoInputs => String::from_str("No inputs found in the circuit to generate truth table"),
            VerifyError::NoOutputs => String::from_str("No outputs found in the circuit to evaluate"),
            VerifyError::TooManyInputs(n) => {
                let mut s = String::from_str("Too many inputs (");
                append_decimal(&mut s, *n as u64);
                append_str(&mut s, "); maximum supported is 10");
                s
            },
        }
    }
}

/// One row: input levels and the output levels they produce.
#[derive(Debug, Clone, PartialEq, Eq)]
pub struct TruthTableRow {
    pub inputs: Vec<Signal>,
    pub outputs: Vec<Signal>,
}

/// A truth table with named columns.
#[derive(Debug, Clone, PartialEq, Eq)]
pub struct TruthTable {
    pub input_names: Vec<String>,
    pub output_names: Vec<String>,
    pub rows: Vec<TruthTableRow>,
}

/// A row as (inputs, outputs).
pub open spec fn row_view(r: TruthTableRow) -> (Seq<Signal>, Seq<Signal>) {
    (r.inputs@, r.outputs@)
}

/// The rows of a table as (inputs, outputs) pairs.
pub open spec fn rows_view(rows: Seq<TruthTableRow>) -> Seq<(Seq<Signal>, Seq<Signal>)> {
    Seq::new(rows.len(), |i: int| row_view(rows[i]))
}

/// '1' for `One`, '0' for anything else.
pub open spec fn bit_char(s: Signal) -> char {
    if s == Signal::One { '1' } else { '0' }
}

/// The CSV line of a row: all input then output levels, comma separated.
pub open spec fn csv_line(r: (Seq<Signal>, Seq<Signal>)) -> Seq<char> {
    let all = r.0 + r.1;
    join(Seq::new(all.len(), |i: int| seq![bit_char(all[i])]), ","@) + "\n"@
}

/// The CSV lines of the first `k` rows.
pub open spec fn csv_rows(rows: Seq<(Seq<Signal>, Seq<Signal>)>, k: int) -> Seq<char>
    decreases k,
{
    if k <= 0 || k > rows.len() { Seq::empty() } else { csv_rows(rows, k - 1) + csv_line(rows[k - 1]) }
}

/// CSV: a header of input then output names, then one line per row.
pub open spec fn spec_csv(inputs: Seq<Seq<char>>, outputs: Seq<Seq<char>>, rows: Seq<(Seq<Signal>, Seq<Signal>)>) -> Seq<char> {
    join(inputs + outputs, ","@) + "\n"@ + csv_rows(rows, rows.len() as int)
}

/// `n` spaces.
pub open spec fn spaces(n: nat) -> Seq<char> {
    Seq::new(n, |i: int| ' ')
}

/// One character centred in a field of width `w` (extra space on the right).
pub open spec fn centred(c: char, w: nat) -> Seq<char> {
    if w <= 1 {
        seq![c]
    } else {
        spaces(((w - 1) / 2) as nat) + seq![c] + spaces(((w - 1) - (w - 1) / 2) as nat)
    }
}

/// The width of column `i`: the byte length of its name, or 1 past the
/// named columns.
pub open spec fn column_width(names: Seq<Seq<char>>, i: int) -> nat {
    if 0 <= i < names.len() { byte_len(names[i]) as usize as nat } else { 1 }
}

/// The cells of a list of levels, each centred under its column name.
pub open spec fn text_cells(sigs: Seq<Signal>, names: Seq<Seq<char>>) -> Seq<Seq<char>> {
    Seq::new(sigs.len(), |i: int| centred(bit_char(sigs[i]), column_width(names, i)))
}

/// The text line of a row.
pub open spec fn text_line(r: (Seq<Signal>, Seq<Signal>), inputs: Seq<Seq<char>>, outputs: Seq<Seq<char>>) -> Seq<char> {
    " "@ + join(text_cells(r.0, inputs), " | "@) + " || "@ + join(text_cells(r.1, outputs), " | "@) + " \n"@
}

/// The text lines of the first `k` rows.
pub open spec fn text_rows(rows: Seq<(Seq<Signal>, Seq<Signal>)>, inputs: Seq<Seq<char>>, outputs: Seq<Seq<char>>, k: int) -> Seq<char>
    decreases k,
{
    if k <= 0 || k > rows.len() {
        Seq::empty()
    } else {
        text_rows(rows, inputs, outputs, k - 1) + text_line(rows[k - 1], inputs, outputs)
    }
}

/// The header line of the text rendering.
pub open spec fn text_header(inputs: Seq<Seq<char>>, outputs: Seq<Seq<char>>) -> Seq<char> {
    " "@ + join(inputs, " | "@) + " || "@ + join(outputs, " | "@) + " "@
}

/// A dashed line as long (in bytes) as the header.
pub open spec fn text_divider(inputs: Seq<Seq<char>>, outputs: Seq<Seq<char>>) -> Seq<char> {
    Seq::new(byte_len(text_header(inputs, outputs)) as usize as nat, |i: int| '-')
}

/// Plain text: divider, header, divider, one line per row, divider.
pub open spec fn spec_plain_text(inputs: Seq<Seq<char>>, outputs: Seq<Seq<char>>, rows: Seq<(Seq<Signal>, Seq<Signal>)>) -> Seq<char> {
    let d = text_divider(inputs, outputs);
    d + "\n"@ + text_header(inputs, outputs) + "\n"@ + d + "\n"@ + text_rows(rows, inputs, outputs, rows.len() as int) + d + "\n"@
}

/// A row whose outputs differ from the expected ones.
#[derive(Debug, Clone, PartialEq, Eq)]
pub struct MismatchRow {
    pub row_index: usize,
    pub inputs: Vec<Signal>,
    pub expected: Vec<Signal>,
    pub actual: Vec<Signal>,
}

/// The outcome of comparing a table against an expected one.
#[derive(Debug, Clone)]
pub struct TruthTableDiff {
    pub total_rows: usize,
    pub is_match: bool,
    pub mismatches: Vec<MismatchRow>,
}

/// A mismatch as (row index, inputs, expected outputs, actual outputs).
pub type MismatchView = (usize, Seq<Signal>, Seq<Signal>, Seq<Signal>);

pub open spec fn mismatch_view(m: MismatchRow) -> MismatchView {
    (m.row_index, m.inputs@, m.expected@, m.actual@)
}

/// The mismatches among the first `k` actual rows: a row whose outputs
/// differ from the expected row at the same position, or that has no
/// expected row (then the expected outputs are all `X`).
pub open spec fn spec_mismatches(actual: Seq<(Seq<Signal>, Seq<Signal>)>, expected: Seq<(Seq<Signal>, Seq<Signal>)>, k: int) -> Seq<MismatchView>
    decreases k,
{
    if k <= 0 || k > actual.len() {
        Seq::empty()
    } else {
        let prev = spec_mismatches(actual, expected, k - 1);
        let i = k - 1;
        let a = actual[i];
        if i < expected.len() {
            if a.1 != expected[i].1 { prev.push((i as usize, a.0, expected[i].1, a.1)) } else { prev }
        } else {
            prev.push((i as usize, a.0, Seq::new(a.1.len(), |j: int| Signal::X), a.1))
        }
    }
}

/// Whether two signal lists are equal.
pub fn signals_eq(a: &Vec<Signal>, b: &Vec<Signal>) -> (r: bool)
    ensures
        r == (a@ == b@),
{
    if a.len() != b.len() {
        return false;
    }
    let mut i: usize = 0;
    while i < a.len()
        invariant
            i <= a.len(),
            a.len() == b.len(),
            forall|j: int| 0 <= j < i ==> a@[j] == b@[j],
        decreases a.len() - i,
    {
        if a[i] != b[i] {
            return false;
        }
        i = i + 1;
    }
    assert(a@ =~= b@);
    true
}

fn clone_strings(v: &Vec<String>) -> (r: Vec<String>)
    ensures
        views(r@) == views(v@),
{
    let mut out: Vec<String> = Vec::new();
    let mut i: usize = 0;
    while i < v.len()
        invariant
            i <= v.len(),
            views(out@) =~= views(v@).take(i as int),
        decreases v.len() - i,
    {
        let c = v[i].clone();
        let ghost before = out@;
        out.push(c);
        proof {
            assert(views(out@) =~= views(before).push(c@));
        }
        i = i + 1;
    }
    assert(views(v@).take(v.len() as int) =~= views(v@));
    out
}

/// The one-character string for a level.
fn bit_string(s: Signal) -> (r: String)
    ensures
        r@ == seq![bit_char(s)],
{
    let r = if s == Signal::One { String::from_str("1") } else { String::from_str("0") };
    proof {
        reveal_strlit("1");
        reveal_strlit("0");
    }
    r
}

/// A character centred in a field (see `centred`).
fn centred_string(c: char, w: usize) -> (r: String)
    ensures
        r@ == centred(c, w as nat),
{
    let mut s = String::new();
    if w <= 1 {
        push_char(&mut s, c);
    } else {
        let left = (w - 1) / 2;
        append_repeat(&mut s, ' ', left);
        push_char(&mut s, c);
        append_repeat(&mut s, ' ', (w - 1) - left);
    }
    assert(s@ =~= centred(c, w as nat));
    s
}

/// The cells of a list of levels (see `text_cells`).
fn text_cells_exec(sigs: &Vec<Signal>, names: &Vec<String>) -> (r: Vec<String>)
    ensures
        views(r@) == text_cells(sigs@, views(names@)),
{
    let mut out: Vec<String> = Vec::new();
    let mut i: usize = 0;
    while i < sigs.len()
        invariant
            i <= sigs.len(),
            views(out@) =~= text_cells(sigs@, views(names@)).take(i as int),
        decreases sigs.len() - i,
    {
        let w: usize = if i < names.len() { string_byte_len(&names[i]) } else { 1 };
        let c = centred_string(if sigs[i] == Signal::One { '1' } else { '0' }, w);
        let ghost before = out@;
        out.push(c);
        proof {
            assert(views(out@) =~= views(before).push(c@));
        }
        i = i + 1;
    }
    assert(text_cells(sigs@, views(names@)).take(sigs.len() as int) =~= text_cells(sigs@, views(names@)));
    out
}

impl TruthTable {
    pub open spec fn inputs_view(&self) -> Seq<Seq<char>> {
        views(self.input_names@)
    }

    pub open spec fn outputs_view(&self) -> Seq<Seq<char>> {
        views(self.output_names@)
    }

    pub open spec fn rows_view(&self) -> Seq<(Seq<Signal>, Seq<Signal>)> {
        rows_view(self.rows@)
    }

    /// Comma-separated rendering: header, then one line of 0/1 per row.
    pub fn to_csv(&self) -> (r: String)
        ensures
            r@ == spec_csv(self.inputs_view(), self.outputs_view(), self.rows_view()),
    {
        let mut s = String::new();
        let mut names = clone_strings(&self.input_names);
        let mut outs = clone_strings(&self.output_names);
        let ghost a = views(names@);
        let ghost b = views(outs@);
        names.append(&mut outs);
        assert(views(names@) =~= a + b);
        append_joined(&mut s, &names, ",");
        append_str(&mut s, "\n");
        let ghost rows = self.rows_view();
        let ghost head = s@;
        let mut k: usize = 0;
        while k < self.rows.len()
            invariant
                k <= self.rows.len(),
                rows == self.rows_view(),
                s@ == head + csv_rows(rows, k as int),
            decreases self.rows.len() - k,
        {
            let row = &self.rows[k];
            let mut cells: Vec<String> = Vec::new();
            let mut i: usize = 0;
            while i < row.inputs.len()
                invariant
                    i <= row.inputs.len(),
                    views(cells@) =~= Seq::new(i as nat, |j: int| seq![bit_char(row.inputs@[j])]),
                decreases row.inputs.len() - i,
            {
                let c = bit_string(row.inputs[i]);
                let ghost before = cells@;
                cells.push(c);
                proof {
                    assert(views(cells@) =~= views(before).push(c@));
                }
                i = i + 1;
            }
            let mut j: usize = 0;
            while j < row.outputs.len()
                invariant
                    j <= row.outputs.len(),
                    views(cells@) =~= Seq::new((row.inputs.len() + j) as nat, |m: int| seq![bit_char((row.inputs@ + row.outputs@)[m])]),
                decreases row.outputs.len() - j,
            {
                let c = bit_string(row.outputs[j]);
                let ghost before = cells@;
                cells.push(c);
                proof {
                    assert(views(cells@) =~= views(before).push(c@));
                }
                j = j + 1;
            }
            let ghost before = s@;
            append_joined(&mut s, &cells, ",");
            append_str(&mut s, "\n");
            proof {
                assert(rows[k as int] == row_view(self.rows@[k as int]));
                let all = row.inputs@ + row.outputs@;
                assert(views(cells@) =~= Seq::new(all.len(), |m: int| seq![bit_char(all[m])]));
                assert(s@ =~= before + csv_line(rows[k as int]));
            }
            k = k + 1;
        }
        s
    }

    /// Plain-text rendering with ` | ` between columns and ` || ` between
    /// inputs and outputs, framed by dashed lines.
    pub fn to_plain_text(&self) -> (r: String)
        ensures
            r@ == spec_plain_text(self.inputs_view(), self.outputs_view(), self.rows_view()),
    {
        let mut header = String::from_str(" ");
        append_joined(&mut header, &self.input_names, " | ");
        append_str(&mut header, " || ");
        append_joined(&mut header, &self.output_names, " | ");
        append_str(&mut header, " ");
        let hl = string_byte_len(&header);
        let mut divider = String::new();
        append_repeat(&mut divider, '-', hl);
        assert(header@ =~= text_header(self.inputs_view(), self.outputs_view()));
        assert(divider@ =~= text_divider(self.inputs_view(), self.outputs_view()));
        let mut s = String::new();
        append_str(&mut s, divider.as_str());
        append_str(&mut s, "\n");
        append_str(&mut s, header.as_str());
        append_str(&mut s, "\n");
        append_str(&mut s, divider.as_str());
        append_str(&mut s, "\n");
        let ghost rows = self.rows_view();
        let ghost head = s@;
        let mut k: usize = 0;
        while k < self.rows.len()
            invariant
                k <= self.rows.len(),
                rows == self.rows_view(),
                s@ == head + text_rows(rows, self.inputs_view(), self.outputs_view(), k as int),
            decreases self.rows.len() - k,
        {
            let row = &self.rows[k];
            let ins = text_cells_exec(&row.inputs, &self.input_names);
            let outs = text_cells_exec(&row.outputs, &self.output_names);
            let ghost before = s@;
            append_str(&mut s, " ");
            append_joined(&mut s, &ins, " | ");
            append_str(&mut s, " || ");
            append_joined(&mut s, &outs, " | ");
            append_str(&mut s, " \n");
            proof {
                assert(rows[k as int] == row_view(self.rows@[k as int]));
                assert(s@ =~= before + text_line(rows[k as int], self.inputs_view(), self.outputs_view()));
            }
            k = k + 1;
        }
        append_str(&mut s, divider.as_str());
        append_str(&mut s, "\n");
        assert(s@ =~= spec_plain_text(self.inputs_view(), self.outputs_view(), self.rows_view()));
        s
    }

    /// Compares the outputs of each row with the expected table's row at the
    /// same position (see `spec_mismatches`).
    pub fn diff(&self, expected: &TruthTable) -> (r: TruthTableDiff)
        ensures
            r.total_rows == self.rows@.len(),
            Seq::new(r.mismatches@.len(), |i: int| mismatch_view(r.mismatches@[i])) == spec_mismatches(
                self.rows_view(),
                expected.rows_view(),
                self.rows@.len() as int,
            ),
            r.is_match == (r.mismatches@.len() == 0),
    {
        let ghost act = self.rows_view();
        let ghost exp = expected.rows_view();
        let mut mismatches: Vec<MismatchRow> = Vec::new();
        let mut idx: usize = 0;
        while idx < self.rows.len()
            invariant
                idx <= self.rows.len(),
                act == self.rows_view(),
                exp == expected.rows_view(),
                Seq::new(mismatches@.len(), |i: int| mismatch_view(mismatches@[i])) =~= spec_mismatches(act, exp, idx as int),
            decreases self.rows.len() - idx,
        {
            let actual_row = &self.rows[idx];
            proof {
                assert(act[idx as int] == row_view(self.rows@[idx as int]));
            }
            if idx < expected.rows.len() {
                let exp_row = &expected.rows[idx];
                proof {
                    assert(exp[idx as int] == row_view(expected.rows@[idx as int]));
                }
                if !signals_eq(&actual_row.outputs, &exp_row.outputs) {
                    mismatches.push(MismatchRow {
                        row_index: idx,
                        inputs: copy_signals(&actual_row.inputs),
                        expected: copy_signals(&exp_row.outputs),
                        actual: copy_signals(&actual_row.outputs),
                    });
                }
            } else {
                let xs = unknowns(actual_row.outputs.len());
                mismatches.push(MismatchRow {
                    row_index: idx,
                    inputs: copy_signals(&actual_row.inputs),
                    expected: xs,
                    actual: copy_signals(&actual_row.outputs),
                });
            }
            idx = idx + 1;
        }
        let empty = mismatches.len() == 0;
        TruthTableDiff { total_rows: self.rows.len(), is_match: empty, mismatches }
    }
}

/// `n` unknown signals.
fn unknowns(n: usize) -> (r: Vec<Signal>)
    ensures
        r@ == Seq::new(n as nat, |i: int| Signal::X),
{
    let mut v: Vec<Signal> = Vec::new();
    let mut i: usize = 0;
    while i < n
        invariant
            i <= n,
            v@ =~= Seq::new(i as nat, |j: int| Signal::X),
        decreases n - i,
    {
        v.push(Signal::X);
        i = i + 1;
    }
    v
}

/// One input driven with level `b`: a switch takes it as its state,
/// another component on input port `port` when it has that port.
pub open spec fn driven_with(nd: NodeView, b: bool, port: int) -> NodeView {
    if nd.kind is ToggleSwitch {
        NodeView { state_flag: b, ..nd }
    } else if nd.input_signals.len() > port {
        NodeView { input_signals: nd.input_signals.update(port, from_bool(b)), ..nd }
    } else {
        nd
    }
}

/// Driving inputs keeps the keys.
proof fn lemma_drive_combo_keys(comps: Seq<(u64, NodeView)>, ids: Seq<u64>, ports: Seq<usize>, combo: nat, n: nat, t: int)
    ensures
        slot_keys(drive_combo(comps, ids, ports, combo, n, t)) == slot_keys(comps),
    decreases t,
{
    if t > 0 && t <= ids.len() {
        lemma_drive_combo_keys(comps, ids, ports, combo, n, t - 1);
        let c = drive_combo(comps, ids, ports, combo, n, t - 1);
        let idx = t - 1;
        match slot_get(c, ids[idx]) {
            Some(nd) => {
                lemma_slot_set_keys(c, ids[idx], driven_with(nd, combo_bit(combo, n, idx as nat), ports[idx] as int));
            },
            None => {},
        }
    }
}

/// Driving the first `t` inputs leaves every other component as it was.
proof fn lemma_drive_combo_other(comps: Seq<(u64, NodeView)>, ids: Seq<u64>, ports: Seq<usize>, combo: nat, n: nat, t: int, k: u64)
    requires
        slot_keys(comps).no_duplicates(),
        0 <= t <= ids.len(),
        forall|j: int| 0 <= j < t ==> ids[j] != k,
    ensures
        slot_get(drive_combo(comps, ids, ports, combo, n, t), k) == slot_get(comps, k),
        slot_keys(drive_combo(comps, ids, ports, combo, n, t)) == slot_keys(comps),
    decreases t,
{
    if t > 0 {
        lemma_drive_combo_other(comps, ids, ports, combo, n, t - 1, k);
        let c = drive_combo(comps, ids, ports, combo, n, t - 1);
        let idx = t - 1;
        match slot_get(c, ids[idx]) {
            Some(nd) => {
                let v = driven_with(nd, combo_bit(combo, n, idx as nat), ports[idx] as int);
                crate::slots::lemma_slot_set_get(c, ids[idx], v, k);
                lemma_slot_set_keys(c, ids[idx], v);
            },
            None => {},
        }
    }
}

/// After the first `t` inputs are driven, input `j < t` holds its level.
proof fn lemma_drive_combo_target(comps: Seq<(u64, NodeView)>, ids: Seq<u64>, ports: Seq<usize>, combo: nat, n: nat, t: int, j: int)
    requires
        slot_keys(comps).no_duplicates(),
        ids.no_duplicates(),
        0 <= j < t <= ids.len(),
        ports.len() == ids.len(),
    ensures
        slot_get(drive_combo(comps, ids, ports, combo, n, t), ids[j]) == match slot_get(comps, ids[j]) {
            Some(nd) => Some(driven_with(nd, combo_bit(combo, n, j as nat), ports[j] as int)),
            None => None,
        },
    decreases t,
{
    let c = drive_combo(comps, ids, ports, combo, n, t - 1);
    let idx = t - 1;
    if idx == j {
        lemma_drive_combo_other(comps, ids, ports, combo, n, t - 1, ids[j]);
    } else {
        lemma_drive_combo_target(comps, ids, ports, combo, n, t - 1, j);
    }
    lemma_drive_combo_keys(comps, ids, ports, combo, n, t - 1);
    lemma_drive_combo_other(comps, ids, ports, combo, n, 0, ids[j]);
    match slot_get(c, ids[idx]) {
        Some(nd) => {
            let v = driven_with(nd, combo_bit(combo, n, idx as nat), ports[idx] as int);
            assert(drive_combo(comps, ids, ports, combo, n, t) == if nd.kind is ToggleSwitch || nd.input_signals.len() > ports[idx] as int {
                slot_set(c, ids[idx], v)
            } else {
                c
            });
            crate::slots::lemma_slot_set_get(c, ids[idx], v, ids[j]);
        },
        None => {},
    }
}

/// While row `combo` of a table is settled, every input is driven with the
/// level the row lists for it: a switch's state is high exactly when the
/// row lists `One`, and another component's detected input port carries the
/// row's level.
pub proof fn lemma_rows_drive_their_inputs(
    comps: Seq<(u64, NodeView)>,
    nets: Seq<(u64, NetView)>,
    lib: Seq<(String, SubcircuitDef)>,
    ins: Seq<u64>,
    ports: Seq<usize>,
    outs: Seq<u64>,
    combo: int,
    j: int,
)
    requires
        slot_keys(comps).no_duplicates(),
        ins.no_duplicates(),
        ports.len() == ins.len(),
        0 <= combo < weight(ins.len()),
        0 <= j < ins.len(),
    ensures
        ({
            let n = ins.len();
            let level = table_rows(comps, nets, lib, ins, ports, outs)[combo].0[j];
            let driven = drive_combo(comps, ins, ports, combo as nat, n, n as int);
            let before = slot_get(comps, ins[j]);
            let after = slot_get(driven, ins[j]);
            &&& before is Some && before->0.kind is ToggleSwitch ==> after is Some && after->0.state_flag == (level
                == Signal::One)
            &&& before is Some && !(before->0.kind is ToggleSwitch) && (ports[j] as int) < before->0.input_signals.len()
                ==> after is Some && after->0.input_signals[ports[j] as int] == level
        }),
{
    let n = ins.len();
    lemma_table_rows_enumerate(comps, nets, lib, ins, ports, outs, combo);
    lemma_drive_combo_target(comps, ins, ports, combo as nat, n, n as int, j);
}

/// What a reported mismatch says of the two tables: it names an actual row
/// among the first `k`; its inputs and actual outputs are that row's; its
/// expected outputs are the expected table's row at the same index, and
/// differ from the actual ones, or are all `X` when the expected table has no
/// such row. Rows are reported in increasing order.
pub proof fn lemma_mismatches_describe_rows(
    actual: Seq<(Seq<Signal>, Seq<Signal>)>,
    expected: Seq<(Seq<Signal>, Seq<Signal>)>,
    k: int,
)
    requires
        0 <= k <= actual.len(),
        actual.len() <= usize::MAX,
    ensures
        forall|t: int|
            0 <= t < spec_mismatches(actual, expected, k).len() ==> {
                let mm = #[trigger] spec_mismatches(actual, expected, k)[t];
                let i = mm.0 as int;
                &&& 0 <= i < k
                &&& mm.1 == actual[i].0
                &&& mm.3 == actual[i].1
                &&& i < expected.len() ==> mm.2 == expected[i].1 && mm.2 != mm.3
                &&& i >= expected.len() ==> mm.2 == Seq::new(actual[i].1.len(), |j: int| Signal::X)
            },
        forall|t: int, u: int|
            0 <= t < u < spec_mismatches(actual, expected, k).len() ==> (#[trigger] spec_mismatches(actual, expected, k)[t]).0
                < (#[trigger] spec_mismatches(actual, expected, k)[u]).0,
    decreases k,
{
    if k > 0 {
        lemma_mismatches_describe_rows(actual, expected, k - 1);
        let prev = spec_mismatches(actual, expected, k - 1);
        let cur = spec_mismatches(actual, expected, k);
        assert forall|t: int| 0 <= t < prev.len() implies cur[t] == prev[t] by {}
    }
}

/// Every actual row among the first `k` that differs from the expected row
/// at its index, or has none, is reported.
pub proof fn lemma_mismatches_complete(
    actual: Seq<(Seq<Signal>, Seq<Signal>)>,
    expected: Seq<(Seq<Signal>, Seq<Signal>)>,
    k: int,
    i: int,
)
    requires
        0 <= i < k <= actual.len(),
        actual.len() <= usize::MAX,
        i >= expected.len() || actual[i].1 != expected[i].1,
    ensures
        exists|t: int|
            0 <= t < spec_mismatches(actual, expected, k).len() && (#[trigger] spec_mismatches(actual, expected, k)[t]).0 == i,
    decreases k,
{
    let cur = spec_mismatches(actual, expected, k);
    if i == k - 1 {
        assert(cur[cur.len() - 1].0 == i);
    } else {
        lemma_mismatches_complete(actual, expected, k - 1, i);
        let prev = spec_mismatches(actual, expected, k - 1);
        let t = choose|t: int| 0 <= t < prev.len() && (#[trigger] prev[t]).0 == i;
        assert(cur[t] == prev[t]);
    }
}

/// A table compared with itself has no mismatches.
pub proof fn lemma_diff_self(rows: Seq<(Seq<Signal>, Seq<Signal>)>, k: int)
    requires
        0 <= k <= rows.len(),
    ensures
        spec_mismatches(rows, rows, k).len() == 0,
    decreases k,
{
    if k > 0 {
        lemma_diff_self(rows, k - 1);
    }
}

} // verus!

verus! {

// ------------------------------------------------------------------
// Finding a circuit's inputs and outputs
// ------------------------------------------------------------------

/// The inputs and outputs a truth table is generated over, with their
/// column names.
pub struct CircuitIO {
    pub input_switches: Vec<(ComponentId, String)>,
    pub output_leds: Vec<(ComponentId, String)>,
    /// For each input, the input port a table drives (0 for a switch,
    /// which is driven through its state).
    pub input_ports: Vec<usize>,
}

/// A labelled list as (key, name) pairs.
pub open spec fn io_view(v: Seq<(ComponentId, String)>) -> Seq<(u64, Seq<char>)> {
    Seq::new(v.len(), |i: int| (v[i].0@, v[i].1@))
}

/// The keys of an optional component filter.
pub open spec fn filter_view(f: Option<&Vec<ComponentId>>) -> Option<Seq<u64>> {
    match f {
        Some(v) => Some(Seq::new(v@.len(), |i: int| v@[i]@)),
        None => None,
    }
}

/// The component passes the filter (no filter passes everything).
pub open spec fn allowed(filter: Option<Seq<u64>>, id: u64) -> bool {
    match filter {
        Some(f) => f.contains(id),
        None => true,
    }
}

/// Switches (named `IN_<n>`) and LEDs (named `OUT_<n>`) among the first `k`
/// components that pass the filter, in order.
pub open spec fn scan_io(comps: Seq<(u64, NodeView)>, filter: Option<Seq<u64>>, k: int) -> (Seq<(u64, Seq<char>)>, Seq<(u64, Seq<char>)>)
    decreases k,
{
    if k <= 0 || k > comps.len() {
        (Seq::empty(), Seq::empty())
    } else {
        let p = scan_io(comps, filter, k - 1);
        let e = comps[k - 1];
        if !allowed(filter, e.0) {
            p
        } else if e.1.kind is ToggleSwitch {
            (p.0.push((e.0, "IN_"@ + spec_decimal(p.0.len()))), p.1)
        } else if e.1.kind is Led {
            (p.0, p.1.push((e.0, "OUT_"@ + spec_decimal(p.1.len()))))
        } else {
            p
        }
    }
}

/// Some net feeds input port `p` of component `id`.
pub open spec fn driven_port(nets: Seq<(u64, NetView)>, id: u64, p: int) -> bool {
    exists|i: int, j: int|
        0 <= i < nets.len() && 0 <= j < nets[i].1.sinks.len() && #[trigger] sink_is(nets[i].1.sinks[j], id, p)
}

/// The endpoint is input port `p` of component `id`.
pub open spec fn sink_is(s: PortEndpoint, id: u64, p: int) -> bool {
    s.component_id@ == id && !s.is_output && s.port_index == p
}

/// The undriven ports among the first `j` input ports of a component's kind,
/// named `<short code>_<port>`.
pub open spec fn free_ports(nets: Seq<(u64, NetView)>, e: (u64, NodeView), j: int) -> Seq<(u64, Seq<char>)>
    decreases j,
{
    if j <= 0 {
        Seq::empty()
    } else {
        let p = free_ports(nets, e, j - 1);
        if driven_port(nets, e.0, j - 1) {
            p
        } else {
            p.push((e.0, spec_short_code(e.1.kind) + "_"@ + spec_decimal((j - 1) as nat)))
        }
    }
}

/// The numbers of the undriven ports among the first `j` input ports.
pub open spec fn free_port_nums(nets: Seq<(u64, NetView)>, e: (u64, NodeView), j: int) -> Seq<usize>
    decreases j,
{
    if j <= 0 {
        Seq::empty()
    } else {
        let p = free_port_nums(nets, e, j - 1);
        if driven_port(nets, e.0, j - 1) { p } else { p.push((j - 1) as usize) }
    }
}

/// The port numbers of the undriven input ports of the first `k`
/// components that pass the filter.
pub open spec fn scan_free_nums(comps: Seq<(u64, NodeView)>, nets: Seq<(u64, NetView)>, filter: Option<Seq<u64>>, k: int) -> Seq<usize>
    decreases k,
{
    if k <= 0 || k > comps.len() {
        Seq::empty()
    } else {
        let e = comps[k - 1];
        scan_free_nums(comps, nets, filter, k - 1) + if allowed(filter, e.0) {
            free_port_nums(nets, e, spec_input_count(e.1.kind) as int)
        } else {
            Seq::empty()
        }
    }
}

/// The undriven input ports of the first `k` components that pass the filter.
pub open spec fn scan_free(comps: Seq<(u64, NodeView)>, nets: Seq<(u64, NetView)>, filter: Option<Seq<u64>>, k: int) -> Seq<(u64, Seq<char>)>
    decreases k,
{
    if k <= 0 || k > comps.len() {
        Seq::empty()
    } else {
        let e = comps[k - 1];
        scan_free(comps, nets, filter, k - 1) + if allowed(filter, e.0) {
            free_ports(nets, e, spec_input_count(e.1.kind) as int)
        } else {
            Seq::empty()
        }
    }
}

/// Output port `p` of component `id` has a downstream sink: the first net
/// it drives has sinks.
pub open spec fn feeds_downstream(nets: Seq<(u64, NetView)>, id: u64, p: int) -> bool {
    let ep = PortEndpoint { component_id: id_of(id), is_output: true, port_index: p as usize };
    exists|i: int| first_net_where(nets, i, net_from(ep)) && nets[i].1.sinks.len() > 0
}

/// The output ports without a downstream sink among the first `j` output
/// ports of a component's kind, named `<short code>_Q<port>`.
pub open spec fn out_ports(nets: Seq<(u64, NetView)>, e: (u64, NodeView), j: int) -> Seq<(u64, Seq<char>)>
    decreases j,
{
    if j <= 0 {
        Seq::empty()
    } else {
        let p = out_ports(nets, e, j - 1);
        if feeds_downstream(nets, e.0, j - 1) {
            p
        } else {
            p.push((e.0, spec_short_code(e.1.kind) + "_Q"@ + spec_decimal((j - 1) as nat)))
        }
    }
}

/// The output ports without a downstream sink of the first `k` components
/// that pass the filter.
pub open spec fn scan_outs(comps: Seq<(u64, NodeView)>, nets: Seq<(u64, NetView)>, filter: Option<Seq<u64>>, k: int) -> Seq<(u64, Seq<char>)>
    decreases k,
{
    if k <= 0 || k > comps.len() {
        Seq::empty()
    } else {
        let e = comps[k - 1];
        scan_outs(comps, nets, filter, k - 1) + if allowed(filter, e.0) {
            out_ports(nets, e, spec_output_count(e.1.kind) as int)
        } else {
            Seq::empty()
        }
    }
}

/// The letter naming input column `i` (A, B, C, D).
pub open spec fn letter(i: int) -> char {
    if i == 0 { 'A' } else if i == 1 { 'B' } else if i == 2 { 'C' } else { 'D' }
}

/// One to four inputs are renamed A, B, C, D.
pub open spec fn rename_inputs(s: Seq<(u64, Seq<char>)>) -> Seq<(u64, Seq<char>)> {
    if 1 <= s.len() <= 4 { Seq::new(s.len(), |i: int| (s[i].0, seq![letter(i)])) } else { s }
}

/// A single output is renamed Q.
pub open spec fn rename_outputs(s: Seq<(u64, Seq<char>)>) -> Seq<(u64, Seq<char>)> {
    if s.len() == 1 { seq![(s[0].0, "Q"@)] } else { s }
}

/// The inputs: the switches, or when there are none, the undriven input
/// ports.
pub open spec fn detected_inputs(comps: Seq<(u64, NodeView)>, nets: Seq<(u64, NetView)>, filter: Option<Seq<u64>>) -> Seq<(u64, Seq<char>)> {
    let io = scan_io(comps, filter, comps.len() as int);
    if io.0.len() == 0 { scan_free(comps, nets, filter, comps.len() as int) } else { io.0 }
}

/// The input port each input is driven on: 0 for switches, otherwise the
/// undriven port found.
pub open spec fn detected_input_ports(comps: Seq<(u64, NodeView)>, nets: Seq<(u64, NetView)>, filter: Option<Seq<u64>>) -> Seq<usize> {
    let io = scan_io(comps, filter, comps.len() as int);
    if io.0.len() == 0 { scan_free_nums(comps, nets, filter, comps.len() as int) } else { Seq::new(io.0.len(), |i: int| 0usize) }
}

/// The outputs: the LEDs, or when there are none, every output port with
/// no downstream sink.
pub open spec fn detected_outputs(comps: Seq<(u64, NodeView)>, nets: Seq<(u64, NetView)>, filter: Option<Seq<u64>>) -> Seq<(u64, Seq<char>)> {
    let io = scan_io(comps, filter, comps.len() as int);
    if io.1.len() == 0 { scan_outs(comps, nets, filter, comps.len() as int) } else { io.1 }
}

/// What input/output detection finds (inputs, outputs, and the port each
/// input is driven on), or why it fails.
pub open spec fn spec_detect(comps: Seq<(u64, NodeView)>, nets: Seq<(u64, NetView)>, filter: Option<Seq<u64>>) -> Result<(Seq<(u64, Seq<char>)>, Seq<(u64, Seq<char>)>, Seq<usize>), VerifyError> {
    let ins = detected_inputs(comps, nets, filter);
    let outs = detected_outputs(comps, nets, filter);
    if ins.len() == 0 {
        Err(VerifyError::NoInputs)
    } else if outs.len() == 0 {
        Err(VerifyError::NoOutputs)
    } else if ins.len() > 10 {
        Err(VerifyError::TooManyInputs(ins.len() as usize))
    } else {
        Ok((rename_inputs(ins), rename_outputs(outs), detected_input_ports(comps, nets, filter)))
    }
}

/// Whether a component passes the filter.
fn passes(filter: Option<&Vec<ComponentId>>, id: u64) -> (r: bool)
    ensures
        r == allowed(filter_view(filter), id),
{
    match filter {
        None => true,
        Some(f) => {
            let mut i: usize = 0;
            while i < f.len()
                invariant
                    i <= f.len(),
                    filter == Some(f),
                    forall|j: int| 0 <= j < i ==> f@[j]@ != id,
                decreases f.len() - i,
            {
                if f[i].raw() == id {
                    assert(filter_view(filter)->0[i as int] == id);
                    return true;
                }
                i = i + 1;
            }
            assert(!filter_view(filter)->0.contains(id));
            false
        },
    }
}

/// `prefix` followed by the decimal rendering of `n`.
fn labelled(prefix: &str, n: usize) -> (r: String)
    ensures
        r@ == prefix@ + spec_decimal(n as nat),
{
    let mut s = String::from_str(prefix);
    append_decimal(&mut s, n as u64);
    s
}

/// `code`, then `sep`, then the decimal rendering of `n`.
fn port_label(code: &String, sep: &str, n: usize) -> (r: String)
    ensures
        r@ == code@ + sep@ + spec_decimal(n as nat),
{
    let mut s = code.clone();
    append_str(&mut s, sep);
    append_decimal(&mut s, n as u64);
    s
}

/// Whether output port `j` of component `id` has a downstream sink (see
/// `feeds_downstream`).
fn output_feeds(circuit: &Circuit, id: u64, j: usize) -> (r: bool)
    requires
        crate::graph::valid_key(id),
    ensures
        r == feeds_downstream(circuit.net_seq(), id, j as int),
{
    let keys = crate::slots::net_slots_keys(&circuit.nets);
    let ghost ns = circuit.net_seq();
    let ep = PortEndpoint { component_id: ComponentId::from_key(id), is_output: true, port_index: j };
    let ghost epv = PortEndpoint { component_id: id_of(id), is_output: true, port_index: j as int as usize };
    assert(ep == epv);
    match circuit.find_net_from_source(ep) {
        Some(nid) => {
            let ghost i0 = choose|i: int| first_net_where(ns, i, net_from(ep)) && ns[i].0 == nid@;
            proof {
                crate::slots::lemma_slot_get_at(ns, i0);
            }
            let r = match circuit.net(nid) {
                Some(n) => n.sinks.len() > 0,
                None => false,
            };
            proof {
                assert forall|i: int| #[trigger] first_net_where(ns, i, net_from(ep)) implies i == i0 by {
                    if i < i0 {
                        assert(!net_from(ep)(ns[i].1));
                    }
                    if i0 < i {
                        assert(!net_from(ep)(ns[i0].1));
                    }
                }
            }
            r
        },
        None => {
            proof {
                assert forall|i: int| !first_net_where(ns, i, net_from(ep)) by {
                    if 0 <= i < ns.len() {
                        assert(!net_from(ep)(ns[i].1));
                    }
                }
            }
            false
        },
    }
}

impl CircuitIO {
    pub open spec fn inputs_view(&self) -> Seq<(u64, Seq<char>)> {
        io_view(self.input_switches@)
    }

    pub open spec fn outputs_view(&self) -> Seq<(u64, Seq<char>)> {
        io_view(self.output_leds@)
    }

    /// Finds the inputs and outputs of the circuit (restricted to the
    /// filter's components when one is given); see `spec_detect`.
    pub fn detect(circuit: &Circuit, filter_components: Option<&Vec<ComponentId>>) -> (r: Result<Self, VerifyError>)
        ensures
            match spec_detect(circuit.comps(), circuit.net_seq(), filter_view(filter_components)) {
                Ok(v) => r matches Ok(io) && io.inputs_view() == v.0 && io.outputs_view() == v.1 && io.input_ports@ == v.2,
                Err(e) => r == Err::<Self, VerifyError>(e),
            },
    {
        let keys = component_slots_keys(&circuit.components);
        let ghost cs = circuit.comps();
        let ghost fv = filter_view(filter_components);
        proof { crate::graph::lemma_keys_wf(cs, keys@); }
        let mut inputs: Vec<(ComponentId, String)> = Vec::new();
        let mut outputs: Vec<(ComponentId, String)> = Vec::new();
        let mut ports: Vec<usize> = Vec::new();
        let mut k: usize = 0;
        while k < keys.len()
            invariant
                k <= keys.len(),
                cs == circuit.comps(),
                keys@ == slot_keys(cs),
                slots_wf(cs),
                fv == filter_view(filter_components),
                (io_view(inputs@), io_view(outputs@)) == scan_io(cs, fv, k as int),
                ports@ == Seq::new(inputs@.len(), |i: int| 0usize),
            decreases keys.len() - k,
        {
            proof {
                assert(slot_keys(cs)[k as int] == keys@[k as int]);
                crate::slots::lemma_slot_get_at(cs, k as int);
            }
            let id = keys[k];
            if passes(filter_components, id) {
                let kind = match component_slots_get(&circuit.components, id) {
                    Some(n) => n.kind.clone(),
                    None => GateKind::Not,
                };
                let ghost bi = inputs@;
                let ghost bo = outputs@;
                if matches!(kind, GateKind::ToggleSwitch) {
                    let label = labelled("IN_", inputs.len());
                    inputs.push((ComponentId::from_key(id), label));
                    ports.push(0);
                    assert(io_view(inputs@) =~= io_view(bi).push((id, label@)));
                    assert(ports@ =~= Seq::new(inputs@.len(), |i: int| 0usize));
                } else if matches!(kind, GateKind::Led) {
                    let label = labelled("OUT_", outputs.len());
                    outputs.push((ComponentId::from_key(id), label));
                    assert(io_view(outputs@) =~= io_view(bo).push((id, label@)));
                }
            }
            k = k + 1;
        }
        assert(keys@.len() == cs.len());
        if inputs.len() == 0 {
            assert(ports@ =~= Seq::<usize>::empty());
            let mut k: usize = 0;
            while k < keys.len()
                invariant
                    k <= keys.len(),
                    cs == circuit.comps(),
                    keys@ == slot_keys(cs),
                    keys@.len() == cs.len(),
                    slots_wf(cs),
                    fv == filter_view(filter_components),
                    io_view(inputs@) == scan_free(cs, circuit.net_seq(), fv, k as int),
                    ports@ == scan_free_nums(cs, circuit.net_seq(), fv, k as int),
                decreases keys.len() - k,
            {
                proof {
                    assert(slot_keys(cs)[k as int] == keys@[k as int]);
                    crate::slots::lemma_slot_get_at(cs, k as int);
                }
                let id = keys[k];
                let ghost before = io_view(inputs@);
                let ghost before_p = ports@;
                if passes(filter_components, id) {
                    let kind = match component_slots_get(&circuit.components, id) {
                        Some(n) => n.kind.clone(),
                        None => GateKind::Not,
                    };
                    let code = kind.short_code();
                    let count = kind.input_count();
                    let cid = ComponentId::from_key(id);
                    let mut j: usize = 0;
                    while j < count
                        invariant
                            j <= count,
                            count == spec_input_count(cs[k as int].1.kind),
                            cs[k as int].0 == id,
                            cid@ == id,
                            code@ == spec_short_code(cs[k as int].1.kind),
                            cs == circuit.comps(),
                            io_view(inputs@) == before + free_ports(circuit.net_seq(), cs[k as int], j as int),
                            ports@ == before_p + free_port_nums(circuit.net_seq(), cs[k as int], j as int),
                        decreases count - j,
                    {
                        let ep = crate::graph::PortEndpoint { component_id: cid, is_output: false, port_index: j };
                        let found = circuit.find_net_driving_sink(ep);
                        proof { lemma_driven_port(circuit.net_seq(), ep, id, j as int); }
                        if found.is_none() {
                            let label = port_label(&code, "_", j);
                            let ghost bi = inputs@;
                            let ghost bp = ports@;
                            inputs.push((cid, label));
                            ports.push(j);
                            assert(io_view(inputs@) =~= io_view(bi).push((id, label@)));
                            assert(ports@ =~= bp.push(j));
                        }
                        j = j + 1;
                    }
                }
                k = k + 1;
            }
        }
        let ghost old_ports = ports@;
        if outputs.len() == 0 {
            let mut k: usize = 0;
            while k < keys.len()
                invariant
                    k <= keys.len(),
                    cs == circuit.comps(),
                    keys@ == slot_keys(cs),
                    keys@.len() == cs.len(),
                    slots_wf(cs),
                    fv == filter_view(filter_components),
                    io_view(outputs@) == scan_outs(cs, circuit.net_seq(), fv, k as int),
                    ports@ == old_ports,
                decreases keys.len() - k,
            {
                proof {
                    assert(slot_keys(cs)[k as int] == keys@[k as int]);
                    crate::slots::lemma_slot_get_at(cs, k as int);
                }
                let id = keys[k];
                let ghost before = io_view(outputs@);
                if passes(filter_components, id) {
                    let kind = match component_slots_get(&circuit.components, id) {
                        Some(n) => n.kind.clone(),
                        None => GateKind::Not,
                    };
                    let code = kind.short_code();
                    let count = kind.output_count();
                    let cid = ComponentId::from_key(id);
                    let mut j: usize = 0;
                    while j < count
                        invariant
                            j <= count,
                            count == spec_output_count(cs[k as int].1.kind),
                            cs[k as int].0 == id,
                            cid@ == id,
                            code@ == spec_short_code(cs[k as int].1.kind),
                            io_view(outputs@) == before + out_ports(circuit.net_seq(), cs[k as int], j as int),
                            crate::graph::valid_key(id),
                        decreases count - j,
                    {
                        if !output_feeds(circuit, id, j) {
                            let label = port_label(&code, "_Q", j);
                            let ghost bo = outputs@;
                            outputs.push((cid, label));
                            assert(io_view(outputs@) =~= io_view(bo).push((id, label@)));
                        }
                        j = j + 1;
                    }
                }
                k = k + 1;
            }
        }
        if inputs.len() == 0 {
            return Err(VerifyError::NoInputs);
        }
        if outputs.len() == 0 {
            return Err(VerifyError::NoOutputs);
        }
        if inputs.len() > 10 {
            return Err(VerifyError::TooManyInputs(inputs.len()));
        }
        let ghost ins0 = io_view(inputs@);
        let ghost outs0 = io_view(outputs@);
        let n = inputs.len();
        if n <= 4 {
            let mut i: usize = 0;
            while i < n
                invariant
                    i <= n,
                    n == inputs@.len(),
                    n <= 4,
                    ins0.len() == n,
                    forall|m: int| 0 <= m < n ==> (#[trigger] io_view(inputs@)[m]).0 == ins0[m].0,
                    forall|m: int| 0 <= m < n ==> (#[trigger] io_view(inputs@)[m]).1 == if m < i { seq![letter(m)] } else { ins0[m].1 },
                decreases n - i,
            {
                let name = if i == 0 {
                    String::from_str("A")
                } else if i == 1 {
                    String::from_str("B")
                } else if i == 2 {
                    String::from_str("C")
                } else {
                    String::from_str("D")
                };
                proof {
                    reveal_strlit("A");
                    reveal_strlit("B");
                    reveal_strlit("C");
                    reveal_strlit("D");
                    assert(name@ =~= seq![letter(i as int)]);
                }
                let cid = inputs[i].0;
                let ghost before = inputs@;
                inputs.set(i, (cid, name));
                proof {
                    assert(cid@ == io_view(before)[i as int].0);
                    assert(io_view(inputs@) =~= io_view(before).update(i as int, (cid@, name@)));
                    assert forall|m: int| 0 <= m < n implies (#[trigger] io_view(inputs@)[m]).0 == ins0[m].0 by {
                        assert(io_view(before)[m].0 == ins0[m].0);
                    }
                }
                i = i + 1;
            }
            assert(io_view(inputs@) =~= rename_inputs(ins0));
        }
        if outputs.len() == 1 {
            let cid = outputs[0].0;
            outputs.set(0, (cid, String::from_str("Q")));
            assert(io_view(outputs@) =~= rename_outputs(outs0));
        }
        Ok(CircuitIO { input_switches: inputs, output_leds: outputs, input_ports: ports })
    }
}

proof fn lemma_free_nums_len(nets: Seq<(u64, NetView)>, e: (u64, NodeView), j: int)
    ensures
        free_port_nums(nets, e, j).len() == free_ports(nets, e, j).len(),
    decreases j,
{
    if j > 0 {
        lemma_free_nums_len(nets, e, j - 1);
    }
}

proof fn lemma_scan_free_nums_len(comps: Seq<(u64, NodeView)>, nets: Seq<(u64, NetView)>, filter: Option<Seq<u64>>, k: int)
    ensures
        scan_free_nums(comps, nets, filter, k).len() == scan_free(comps, nets, filter, k).len(),
    decreases k,
{
    if k > 0 && k <= comps.len() {
        lemma_scan_free_nums_len(comps, nets, filter, k - 1);
        let e = comps[k - 1];
        lemma_free_nums_len(nets, e, spec_input_count(e.1.kind) as int);
    }
}

/// Each detected input has a detected port.
proof fn lemma_detect_ports_len(comps: Seq<(u64, NodeView)>, nets: Seq<(u64, NetView)>, filter: Option<Seq<u64>>)
    ensures
        detected_input_ports(comps, nets, filter).len() == detected_inputs(comps, nets, filter).len(),
        spec_detect(comps, nets, filter) matches Ok(v) ==> v.2.len() == v.0.len(),
{
    lemma_scan_free_nums_len(comps, nets, filter, comps.len() as int);
}

/// What a search for a net feeding an endpoint answers, in terms of the
/// port's component key and index.
proof fn lemma_driven_port(nets: Seq<(u64, NetView)>, ep: PortEndpoint, id: u64, p: int)
    requires
        ep.component_id@ == id,
        !ep.is_output,
        ep.port_index == p,
    ensures
        (exists|i: int| 0 <= i < nets.len() && net_feeds(ep)(#[trigger] nets[i].1)) == driven_port(nets, id, p),
{
    if driven_port(nets, id, p) {
        let (i, j) = choose|i: int, j: int|
            0 <= i < nets.len() && 0 <= j < nets[i].1.sinks.len() && #[trigger] sink_is(nets[i].1.sinks[j], id, p);
        crate::graph::lemma_component_id_eq(nets[i].1.sinks[j].component_id, ep.component_id);
        assert(nets[i].1.sinks[j] == ep);
        assert(net_feeds(ep)(nets[i].1));
    }
    if exists|i: int| 0 <= i < nets.len() && net_feeds(ep)(#[trigger] nets[i].1) {
        let i = choose|i: int| 0 <= i < nets.len() && net_feeds(ep)(#[trigger] nets[i].1);
        let j = choose|j: int| 0 <= j < nets[i].1.sinks.len() && nets[i].1.sinks[j] == ep;
        assert(sink_is(nets[i].1.sinks[j], id, p));
    }
}

} // verus!

verus! {

// ------------------------------------------------------------------
// Generating a truth table by simulation
// ------------------------------------------------------------------

/// Bit `j` (most significant first) of an `n`-bit input combination.
pub open spec fn combo_bit(combo: nat, n: nat, j: nat) -> bool {
    (combo / weight((n - 1 - j) as nat)) % 2 == 1
}

/// The input levels of combination `combo`, most significant first.
pub open spec fn combo_inputs(combo: nat, n: nat) -> Seq<Signal> {
    Seq::new(n, |j: int| from_bool(combo_bit(combo, n, j as nat)))
}

/// Drives the first `j` inputs for a combination: a switch takes the bit as
/// its state; any other component takes it on the input port detected for
/// it (`ports`), when it has that port.
pub open spec fn drive_combo(comps: Seq<(u64, NodeView)>, ids: Seq<u64>, ports: Seq<usize>, combo: nat, n: nat, j: int) -> Seq<(u64, NodeView)>
    decreases j,
{
    if j <= 0 || j > ids.len() {
        comps
    } else {
        let c = drive_combo(comps, ids, ports, combo, n, j - 1);
        let idx = j - 1;
        let b = combo_bit(combo, n, idx as nat);
        let port = ports[idx] as int;
        match slot_get(c, ids[idx]) {
            Some(nd) => if nd.kind is ToggleSwitch {
                slot_set(c, ids[idx], NodeView { state_flag: b, ..nd })
            } else if nd.input_signals.len() > port {
                slot_set(c, ids[idx], NodeView { input_signals: nd.input_signals.update(port, from_bool(b)), ..nd })
            } else {
                c
            },
            None => c,
        }
    }
}

/// The level read from an output: an LED's input 0, another component's
/// output 0 (`Zero` when missing).
pub open spec fn read_out(comps: Seq<(u64, NodeView)>, id: u64) -> Signal {
    match slot_get(comps, id) {
        Some(nd) => if nd.kind is Led { sig_at(nd.input_signals, 0) } else { sig_at(nd.output_signals, 0) },
        None => Signal::Zero,
    }
}

/// The row of combination `combo`: drive the inputs, settle, read the
/// outputs.
pub open spec fn table_row(
    comps: Seq<(u64, NodeView)>,
    nets: Seq<(u64, NetView)>,
    lib: Seq<(String, SubcircuitDef)>,
    ins: Seq<u64>,
    ports: Seq<usize>,
    outs: Seq<u64>,
    combo: nat,
) -> (Seq<Signal>, Seq<Signal>) {
    let n = ins.len();
    let settled = spec_settle(drive_combo(comps, ins, ports, combo, n, n as int), nets, lib);
    (combo_inputs(combo, n), Seq::new(outs.len(), |k: int| read_out(settled.0, outs[k])))
}

/// One row per input combination, in counting order.
pub open spec fn table_rows(
    comps: Seq<(u64, NodeView)>,
    nets: Seq<(u64, NetView)>,
    lib: Seq<(String, SubcircuitDef)>,
    ins: Seq<u64>,
    ports: Seq<usize>,
    outs: Seq<u64>,
) -> Seq<(Seq<Signal>, Seq<Signal>)> {
    Seq::new(weight(ins.len()), |combo: int| table_row(comps, nets, lib, ins, ports, outs, combo as nat))
}

/// The keys of a labelled list.
pub open spec fn io_keys(v: Seq<(u64, Seq<char>)>) -> Seq<u64> {
    Seq::new(v.len(), |i: int| v[i].0)
}

/// The names of a labelled list.
pub open spec fn io_names(v: Seq<(u64, Seq<char>)>) -> Seq<Seq<char>> {
    Seq::new(v.len(), |i: int| v[i].1)
}

/// `2^k` for small `k`.
fn pow2(k: usize) -> (r: usize)
    requires
        k <= 10,
    ensures
        r as nat == weight(k as nat),
        1 <= r <= 1024,
{
    proof { reveal_with_fuel(weight, 11); }
    if k == 0 {
        1
    } else if k == 1 {
        2
    } else if k == 2 {
        4
    } else if k == 3 {
        8
    } else if k == 4 {
        16
    } else if k == 5 {
        32
    } else if k == 6 {
        64
    } else if k == 7 {
        128
    } else if k == 8 {
        256
    } else if k == 9 {
        512
    } else {
        1024
    }
}

/// Drives the inputs for one combination (see `drive_combo`).
fn drive_combo_exec(comps: &mut ComponentSlots, ids: &Vec<(ComponentId, String)>, ports: &Vec<usize>, combo: usize)
    requires
        slots_wf(component_slots(*old(comps))),
        1 <= ids@.len() <= 10,
        ports@.len() == ids@.len(),
    ensures
        component_slots(*final(comps)) == drive_combo(
            component_slots(*old(comps)),
            io_keys(io_view(ids@)),
            ports@,
            combo as nat,
            ids@.len() as nat,
            ids@.len() as int,
        ),
        slots_wf(component_slots(*final(comps))),
        crate::settle_laws::same_kinds(component_slots(*old(comps)), component_slots(*final(comps))),
{
    let n = ids.len();
    let ghost keys = io_keys(io_view(ids@));
    let mut j: usize = 0;
    while j < n
        invariant
            j <= n,
            n == ids@.len(),
            n <= 10,
            keys == io_keys(io_view(ids@)),
            ports@.len() == n,
            component_slots(*comps) == drive_combo(component_slots(*old(comps)), keys, ports@, combo as nat, n as nat, j as int),
            slots_wf(component_slots(*comps)),
            crate::settle_laws::same_kinds(component_slots(*old(comps)), component_slots(*comps)),
        decreases n - j,
    {
        let ghost c = component_slots(*comps);
        let k = ids[j].0.raw();
        assert(keys[j as int] == k);
        let p = pow2(n - 1 - j);
        let b = (combo / p) % 2 == 1;
        let sig = Signal::from_bool(b);
        let port = ports[j];
        let (present, is_switch, wide) = match component_slots_get(comps, k) {
            Some(nd) => (true, matches!(nd.kind, GateKind::ToggleSwitch), nd.input_signals.len() > port),
            None => (false, false, false),
        };
        if present && (is_switch || wide) {
            let nd = component_slots_get_mut(comps, k);
            if is_switch {
                nd.state_flag = b;
                proof {
                    let nv = slot_get(c, k)->0;
                    lemma_slot_set_keys(c, k, NodeView { state_flag: b, ..nv });
                    crate::settle_laws::lemma_set_same_kind(c, k, NodeView { state_flag: b, ..nv });
                }
            } else {
                nd.input_signals.set(port, sig);
                proof {
                    let nv = slot_get(c, k)->0;
                    lemma_slot_set_keys(c, k, NodeView { input_signals: nv.input_signals.update(port as int, sig), ..nv });
                    crate::settle_laws::lemma_set_same_kind(c, k, NodeView { input_signals: nv.input_signals.update(port as int, sig), ..nv });
                }
            }
        }
        j = j + 1;
    }
}

/// The level read from an output (see `read_out`).
fn read_out_exec(comps: &ComponentSlots, id: &ComponentId) -> (r: Signal)
    ensures
        r == read_out(component_slots(*comps), id@),
{
    match component_slots_get(comps, id.raw()) {
        Some(nd) => if matches!(nd.kind, GateKind::Led) {
            if nd.input_signals.len() > 0 { nd.input_signals[0] } else { Signal::Zero }
        } else {
            if nd.output_signals.len() > 0 { nd.output_signals[0] } else { Signal::Zero }
        },
        None => Signal::Zero,
    }
}

fn names_of(v: &Vec<(ComponentId, String)>) -> (r: Vec<String>)
    ensures
        views(r@) == io_names(io_view(v@)),
{
    let mut out: Vec<String> = Vec::new();
    let mut i: usize = 0;
    while i < v.len()
        invariant
            i <= v.len(),
            views(out@) =~= io_names(io_view(v@)).take(i as int),
        decreases v.len() - i,
    {
        let c = v[i].1.clone();
        let ghost before = out@;
        out.push(c);
        proof {
            assert(views(out@) =~= views(before).push(c@));
        }
        i = i + 1;
    }
    assert(io_names(io_view(v@)).take(v.len() as int) =~= io_names(io_view(v@)));
    out
}

/// Generates the truth table of a circuit by simulation.
pub struct TruthTableGenerator;

impl TruthTableGenerator {
    /// Detects the inputs and outputs (see `spec_detect`), then settles a
    /// copy of the circuit for every input combination (most significant
    /// input first) and reads the outputs (see `table_rows`).
    pub fn generate(circuit: &Circuit, filter_components: Option<&Vec<ComponentId>>) -> (r: Result<(TruthTable, CircuitIO), VerifyError>)
        requires
            spec_detect(circuit.comps(), circuit.net_seq(), filter_view(filter_components)) is Ok ==> lib_ok_for(
                circuit.comps(),
                circuit.subcircuits@,
            ),
        ensures
            match spec_detect(circuit.comps(), circuit.net_seq(), filter_view(filter_components)) {
                Ok(v) => r matches Ok((t, io)) && io.inputs_view() == v.0 && io.outputs_view() == v.1
                    && io.input_ports@ == v.2
                    && t.inputs_view() == io_names(v.0) && t.outputs_view() == io_names(v.1)
                    && t.rows_view() == table_rows(
                        circuit.comps(),
                        circuit.net_seq(),
                        circuit.subcircuits@,
                        io_keys(v.0),
                        v.2,
                        io_keys(v.1),
                    ),
                Err(e) => r matches Err(e2) && e2 == e,
            },
    {
        let io = match CircuitIO::detect(circuit, filter_components) {
            Ok(io) => io,
            Err(e) => return Err(e),
        };
        let n_inputs = io.input_switches.len();
        proof {
            let v = spec_detect(circuit.comps(), circuit.net_seq(), filter_view(filter_components))->Ok_0;
            assert(1 <= v.0.len() <= 10);
        }
        let total = pow2(n_inputs);
        let input_names = names_of(&io.input_switches);
        let output_names = names_of(&io.output_leds);
        let ghost ins = io_keys(io.inputs_view());
        let ghost outs = io_keys(io.outputs_view());
        let ghost cs = circuit.comps();
        let ghost ns = circuit.net_seq();
        let ghost lib = circuit.subcircuits@;
        let ghost ports = io.input_ports@;
        proof {
            assert(ports.len() == n_inputs) by {
                let comps0 = circuit.comps();
                let nets0 = circuit.net_seq();
                let fv = filter_view(filter_components);
                lemma_detect_ports_len(comps0, nets0, fv);
            }
        }
        let ghost expected = table_rows(cs, ns, lib, ins, ports, outs);
        let mut rows: Vec<TruthTableRow> = Vec::new();
        let mut combo: usize = 0;
        while combo < total
            invariant
                combo <= total,
                total as nat == weight(n_inputs as nat),
                n_inputs == io.input_switches@.len(),
                1 <= n_inputs <= 10,
                ins == io_keys(io.inputs_view()),
                outs == io_keys(io.outputs_view()),
                cs == circuit.comps(),
                ns == circuit.net_seq(),
                lib == circuit.subcircuits@,
                lib_ok_for(cs, lib),
                ports == io.input_ports@,
                ports.len() == n_inputs,
                expected == table_rows(cs, ns, lib, ins, ports, outs),
                rows_view(rows@) =~= expected.take(combo as int),
            decreases total - combo,
        {
            let mut comps = crate::slots::component_slots_clone(&circuit.components);
            let mut nets = crate::slots::net_slots_clone(&circuit.nets);
            let _k = component_slots_keys(&comps);
            proof { crate::graph::lemma_keys_wf(component_slots(comps), _k@); }
            let ghost undriven = component_slots(comps);
            drive_combo_exec(&mut comps, &io.input_switches, &io.input_ports, combo);
            proof { crate::settle_laws::lemma_same_kinds_instance(undriven, component_slots(comps)); }
            let mut row_inputs: Vec<Signal> = Vec::new();
            let mut j: usize = 0;
            while j < n_inputs
                invariant
                    j <= n_inputs,
                    n_inputs <= 10,
                    row_inputs@ =~= combo_inputs(combo as nat, n_inputs as nat).take(j as int),
                decreases n_inputs - j,
            {
                let p = pow2(n_inputs - 1 - j);
                row_inputs.push(Signal::from_bool((combo / p) % 2 == 1));
                j = j + 1;
            }
            Simulator::settle_any(&mut comps, &mut nets, &circuit.subcircuits);
            let mut row_outputs: Vec<Signal> = Vec::new();
            let mut k: usize = 0;
            while k < io.output_leds.len()
                invariant
                    k <= io.output_leds.len(),
                    outs == io_keys(io.outputs_view()),
                    row_outputs@ =~= Seq::new(k as nat, |m: int| read_out(component_slots(comps), outs[m])),
                decreases io.output_leds.len() - k,
            {
                row_outputs.push(read_out_exec(&comps, &io.output_leds[k].0));
                k = k + 1;
            }
            proof {
                assert(row_inputs@ =~= combo_inputs(combo as nat, n_inputs as nat));
                assert(expected[combo as int] == table_row(cs, ns, lib, ins, ports, outs, combo as nat));
            }
            let ghost before = rows@;
            rows.push(TruthTableRow { inputs: row_inputs, outputs: row_outputs });
            proof {
                assert(rows_view(rows@) =~= rows_view(before).push(expected[combo as int]));
            }
            combo = combo + 1;
        }
        let t = TruthTable { input_names, output_names, rows };
        assert(t.rows_view() =~= expected);
        Ok((t, io))
    }
}

} // verus!

verus! {

// ------------------------------------------------------------------
// Reference tables
// ------------------------------------------------------------------

/// The number of inputs of the gates that have a reference table (0 for
/// the others).
pub open spec fn reference_arity(k: GateKind) -> nat {
    match k {
        GateKind::Not => 1,
        GateKind::And | GateKind::Or | GateKind::Xor | GateKind::Nand | GateKind::Nor | GateKind::Xnor => 2,
        _ => 0,
    }
}

/// The reference table of a gate: inputs A (and B), output Q, one row per
/// input combination in counting order with that kind's output; empty for
/// kinds without one.
pub open spec fn spec_reference(k: GateKind) -> (Seq<Seq<char>>, Seq<Seq<char>>, Seq<(Seq<Signal>, Seq<Signal>)>) {
    let n = reference_arity(k);
    if n == 0 {
        (Seq::empty(), Seq::empty(), Seq::empty())
    } else {
        (
            if n == 1 { seq!["A"@] } else { seq!["A"@, "B"@] },
            seq!["Q"@],
            Seq::new(weight(n), |c: int| (combo_inputs(c as nat, n), eval_plain(k, combo_inputs(c as nat, n), false))),
        )
    }
}

fn row1(a: Signal, q: Signal) -> (r: TruthTableRow)
    ensures
        row_view(r) == (seq![a], seq![q]),
{
    let mut inputs: Vec<Signal> = Vec::new();
    inputs.push(a);
    let mut outputs: Vec<Signal> = Vec::new();
    outputs.push(q);
    assert(inputs@ =~= seq![a]);
    assert(outputs@ =~= seq![q]);
    TruthTableRow { inputs, outputs }
}

fn row2(a: Signal, b: Signal, q: Signal) -> (r: TruthTableRow)
    ensures
        row_view(r) == (seq![a, b], seq![q]),
{
    let mut inputs: Vec<Signal> = Vec::new();
    inputs.push(a);
    inputs.push(b);
    let mut outputs: Vec<Signal> = Vec::new();
    outputs.push(q);
    assert(inputs@ =~= seq![a, b]);
    assert(outputs@ =~= seq![q]);
    TruthTableRow { inputs, outputs }
}

fn names(two: bool) -> (r: Vec<String>)
    ensures
        views(r@) == if two { seq!["A"@, "B"@] } else { seq!["A"@] },
{
    let mut v = vec![String::from_str("A")];
    if two {
        v.push(String::from_str("B"));
    }
    assert(views(v@) =~= if two { seq!["A"@, "B"@] } else { seq!["A"@] });
    v
}

impl TruthTableGenerator {
    /// Reference truth tables for the basic gates (see `spec_reference`).
    pub fn reference_table(kind: GateKind) -> (r: TruthTable)
        ensures
            (r.inputs_view(), r.outputs_view(), r.rows_view()) == spec_reference(kind),
    {
        let q = vec![String::from_str("Q")];
        assert(views(q@) =~= seq!["Q"@]);
        proof {
            reveal_with_fuel(weight, 3);
            reveal_with_fuel(and_all, 3);
            reveal_with_fuel(or_all, 3);
            reveal_with_fuel(count_high, 3);
        }
        match kind {
            GateKind::Not => {
                let r0 = row1(Signal::Zero, Signal::One);
                let r1 = row1(Signal::One, Signal::Zero);
                let rows = vec![r0, r1];
                let t = TruthTable { input_names: names(false), output_names: q, rows };
                proof {
                    let e = spec_reference(kind).2;
                    assert(weight(0) == 1);
                    assert(combo_bit(0, 1, 0) == false);
                    assert(combo_bit(1, 1, 0) == true);
                    assert(combo_inputs(0, 1) =~= seq![Signal::Zero]);
                    assert(combo_inputs(1, 1) =~= seq![Signal::One]);
                    assert(weight(1) == 2);
                    assert(e.len() == 2);
                    assert(e[0] == (seq![Signal::Zero], seq![Signal::One]));
                    assert(e[1] == (seq![Signal::One], seq![Signal::Zero]));
                    assert(t.rows_view()[0] == row_view(r0));
                    assert(t.rows_view()[1] == row_view(r1));
                    assert(t.rows_view() =~= e);
                }
                t
            },
            GateKind::And => {
                let r0 = row2(Signal::Zero, Signal::Zero, Signal::Zero);
                let r1 = row2(Signal::Zero, Signal::One, Signal::Zero);
                let r2 = row2(Signal::One, Signal::Zero, Signal::Zero);
                let r3 = row2(Signal::One, Signal::One, Signal::One);
                let rows = vec![r0, r1, r2, r3];
                let t = TruthTable { input_names: names(true), output_names: q, rows };
                proof {
                    reveal_with_fuel(and_all, 3);
                    reveal_with_fuel(or_all, 3);
                    reveal_with_fuel(count_high, 3);
                    lemma_two_input_combos();
                    assert(t.rows_view()[0] == row_view(r0));
                    assert(t.rows_view()[1] == row_view(r1));
                    assert(t.rows_view()[2] == row_view(r2));
                    assert(t.rows_view()[3] == row_view(r3));
                    lemma_two_input_rows(kind, t.rows_view());
                }
                t
            },
            GateKind::Or => {
                let r0 = row2(Signal::Zero, Signal::Zero, Signal::Zero);
                let r1 = row2(Signal::Zero, Signal::One, Signal::One);
                let r2 = row2(Signal::One, Signal::Zero, Signal::One);
                let r3 = row2(Signal::One, Signal::One, Signal::One);
                let rows = vec![r0, r1, r2, r3];
                let t = TruthTable { input_names: names(true), output_names: q, rows };
                proof {
                    reveal_with_fuel(and_all, 3);
                    reveal_with_fuel(or_all, 3);
                    reveal_with_fuel(count_high, 3);
                    lemma_two_input_combos();
                    assert(t.rows_view()[0] == row_view(r0));
                    assert(t.rows_view()[1] == row_view(r1));
                    assert(t.rows_view()[2] == row_view(r2));
                    assert(t.rows_view()[3] == row_view(r3));
                    lemma_two_input_rows(kind, t.rows_view());
                }
                t
            },
            GateKind::Xor => {
                let r0 = row2(Signal::Zero, Signal::Zero, Signal::Zero);
                let r1 = row2(Signal::Zero, Signal::One, Signal::One);
                let r2 = row2(Signal::One, Signal::Zero, Signal::One);
                let r3 = row2(Signal::One, Signal::One, Signal::Zero);
                let rows = vec![r0, r1, r2, r3];
                let t = TruthTable { input_names: names(true), output_names: q, rows };
                proof {
                    reveal_with_fuel(and_all, 3);
                    reveal_with_fuel(or_all, 3);
                    reveal_with_fuel(count_high, 3);
                    lemma_two_input_combos();
                    assert(t.rows_view()[0] == row_view(r0));
                    assert(t.rows_view()[1] == row_view(r1));
                    assert(t.rows_view()[2] == row_view(r2));
                    assert(t.rows_view()[3] == row_view(r3));
                    lemma_two_input_rows(kind, t.rows_view());
                }
                t
            },
            GateKind::Nand => {
                let r0 = row2(Signal::Zero, Signal::Zero, Signal::One);
                let r1 = row2(Signal::Zero, Signal::One, Signal::One);
                let r2 = row2(Signal::One, Signal::Zero, Signal::One);
                let r3 = row2(Signal::One, Signal::One, Signal::Zero);
                let rows = vec![r0, r1, r2, r3];
                let t = TruthTable { input_names: names(true), output_names: q, rows };
                proof {
                    reveal_with_fuel(and_all, 3);
                    reveal_with_fuel(or_all, 3);
                    reveal_with_fuel(count_high, 3);
                    lemma_two_input_combos();
                    assert(t.rows_view()[0] == row_view(r0));
                    assert(t.rows_view()[1] == row_view(r1));
                    assert(t.rows_view()[2] == row_view(r2));
                    assert(t.rows_view()[3] == row_view(r3));
                    lemma_two_input_rows(kind, t.rows_view());
                }
                t
            },
            GateKind::Nor => {
                let r0 = row2(Signal::Zero, Signal::Zero, Signal::One);
                let r1 = row2(Signal::Zero, Signal::One, Signal::Zero);
                let r2 = row2(Signal::One, Signal::Zero, Signal::Zero);
                let r3 = row2(Signal::One, Signal::One, Signal::Zero);
                let rows = vec![r0, r1, r2, r3];
                let t = TruthTable { input_names: names(true), output_names: q, rows };
                proof {
                    reveal_with_fuel(and_all, 3);
                    reveal_with_fuel(or_all, 3);
                    reveal_with_fuel(count_high, 3);
                    lemma_two_input_combos();
                    assert(t.rows_view()[0] == row_view(r0));
                    assert(t.rows_view()[1] == row_view(r1));
                    assert(t.rows_view()[2] == row_view(r2));
                    assert(t.rows_view()[3] == row_view(r3));
                    lemma_two_input_rows(kind, t.rows_view());
                }
                t
            },
            GateKind::Xnor => {
                let r0 = row2(Signal::Zero, Signal::Zero, Signal::One);
                let r1 = row2(Signal::Zero, Signal::One, Signal::Zero);
                let r2 = row2(Signal::One, Signal::Zero, Signal::Zero);
                let r3 = row2(Signal::One, Signal::One, Signal::One);
                let rows = vec![r0, r1, r2, r3];
                let t = TruthTable { input_names: names(true), output_names: q, rows };
                proof {
                    reveal_with_fuel(and_all, 3);
                    reveal_with_fuel(or_all, 3);
                    reveal_with_fuel(count_high, 3);
                    lemma_two_input_combos();
                    assert(t.rows_view()[0] == row_view(r0));
                    assert(t.rows_view()[1] == row_view(r1));
                    assert(t.rows_view()[2] == row_view(r2));
                    assert(t.rows_view()[3] == row_view(r3));
                    lemma_two_input_rows(kind, t.rows_view());
                }
                t
            },
            _ => TruthTable { input_names: Vec::new(), output_names: Vec::new(), rows: Vec::new() },
        }
    }
}

/// The four input combinations of a two-input table, in counting order.
proof fn lemma_two_input_combos()
    ensures
        combo_inputs(0, 2) == seq![Signal::Zero, Signal::Zero],
        combo_inputs(1, 2) == seq![Signal::Zero, Signal::One],
        combo_inputs(2, 2) == seq![Signal::One, Signal::Zero],
        combo_inputs(3, 2) == seq![Signal::One, Signal::One],
{
    reveal_with_fuel(weight, 3);
    assert(weight(0) == 1);
    assert(weight(1) == 2);
    assert(combo_bit(0, 2, 0) == false && combo_bit(0, 2, 1) == false);
    assert(combo_bit(1, 2, 0) == false && combo_bit(1, 2, 1) == true);
    assert(combo_bit(2, 2, 0) == true && combo_bit(2, 2, 1) == false);
    assert(combo_bit(3, 2, 0) == true && combo_bit(3, 2, 1) == true);
    assert(combo_inputs(0, 2) =~= seq![Signal::Zero, Signal::Zero]);
    assert(combo_inputs(1, 2) =~= seq![Signal::Zero, Signal::One]);
    assert(combo_inputs(2, 2) =~= seq![Signal::One, Signal::Zero]);
    assert(combo_inputs(3, 2) =~= seq![Signal::One, Signal::One]);
}

/// A hand-written two-input table equals the reference one when its rows
/// are that kind's outputs on the four combinations.
proof fn lemma_two_input_rows(k: GateKind, rows: Seq<(Seq<Signal>, Seq<Signal>)>)
    requires
        reference_arity(k) == 2,
        rows.len() == 4,
        forall|c: int| 0 <= c < 4 ==> (#[trigger] rows[c]).0 == combo_inputs(c as nat, 2) && rows[c].1 == eval_plain(k, combo_inputs(c as nat, 2), false),
    ensures
        rows == spec_reference(k).2,
{
    reveal_with_fuel(weight, 3);
    assert(rows =~= spec_reference(k).2);
}

} // verus!

verus! {

/// Every row of a reference table holds what `GateKind::eval` gives for
/// that gate on the row's inputs.
pub proof fn lemma_reference_matches_eval(kind: GateKind, i: int)
    requires
        0 <= i < spec_reference(kind).2.len(),
    ensures
        spec_reference(kind).2[i].1 == spec_eval(probe_node(kind, spec_reference(kind).2[i].0, false), Seq::empty()).0,
{
}

} // verus!

verus! {

/// A generated table has one row per input combination, in counting order
/// with the first input as the most significant bit.
pub proof fn lemma_table_rows_enumerate(
    comps: Seq<(u64, NodeView)>,
    nets: Seq<(u64, NetView)>,
    lib: Seq<(String, SubcircuitDef)>,
    ins: Seq<u64>,
    ports: Seq<usize>,
    outs: Seq<u64>,
    combo: int,
)
    requires
        0 <= combo < weight(ins.len()),
    ensures
        table_rows(comps, nets, lib, ins, ports, outs).len() == weight(ins.len()),
        table_rows(comps, nets, lib, ins, ports, outs)[combo].0 == combo_inputs(combo as nat, ins.len()),
        table_rows(comps, nets, lib, ins, ports, outs)[combo].1.len() == outs.len(),
{
}


/// `weight` is the power of two.
proof fn lemma_weight_pow2(n: nat)
    ensures
        weight(n) == vstd::arithmetic::power2::pow2(n),
    decreases n,
{
    if n == 0 {
        vstd::arithmetic::power2::lemma2_to64();
    } else {
        lemma_weight_pow2((n - 1) as nat);
        vstd::arithmetic::power2::lemma_pow2_unfold(n);
    }
}

/// The rows of a table in shift form: there are `1 << n` of them, row `k`
/// drives input `j` high exactly when bit `n - 1 - j` of `k` is set (most
/// significant input first) and low otherwise, and every row has one level
/// per output.
pub proof fn lemma_table_rows_shift_form(
    comps: Seq<(u64, NodeView)>,
    nets: Seq<(u64, NetView)>,
    lib: Seq<(String, SubcircuitDef)>,
    ins: Seq<u64>,
    ports: Seq<usize>,
    outs: Seq<u64>,
    k: u64,
    j: u64,
)
    requires
        ins.len() <= 10,
        k < weight(ins.len()),
        j < ins.len(),
    ensures
        table_rows(comps, nets, lib, ins, ports, outs).len() == (1u64 << (ins.len() as u64)),
        table_rows(comps, nets, lib, ins, ports, outs)[k as int].0[j as int] == if (k >> ((ins.len() - 1 - j) as u64)) & 1u64
            == 1u64 {
            Signal::One
        } else {
            Signal::Zero
        },
        table_rows(comps, nets, lib, ins, ports, outs)[k as int].1.len() == outs.len(),
{
    let n = ins.len();
    lemma_table_rows_enumerate(comps, nets, lib, ins, ports, outs, k as int);
    lemma_weight_pow2(n);
    vstd::arithmetic::power2::lemma2_to64();
    if n < 10 {
        vstd::arithmetic::power2::lemma_pow2_strictly_increases(n, 10);
    }
    vstd::bits::lemma_u64_shl_is_mul(1u64, n as u64);
    let e = (n - 1 - j) as u64;
    lemma_weight_pow2(e as nat);
    vstd::bits::lemma_u64_shr_is_div(k, e);
    let q = k >> e;
    assert((q & 1u64 == 1u64) == (q % 2 == 1)) by (bit_vector);
}
} // verus!
