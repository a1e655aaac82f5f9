//! Export of a circuit as Verilog or VHDL source text.
use vstd::prelude::*;
use crate::component::GateKind;
use crate::graph::{id_of, Circuit, ComponentId, NetView, NodeView, PortEndpoint, SubcircuitDef};
use crate::slots::{component_slots, component_slots_get, component_slots_keys, net_slots, net_slots_get, net_slots_keys, slot_keys, slots_wf};
use crate::text::{all_ascii, append_decimal, append_str, join, push_char, spec_decimal, views};

verus! {

// ------------------------------------------------------------------
// Identifiers
// ------------------------------------------------------------------

/// What `char::is_alphanumeric` answers for a character.
pub uninterp spec fn spec_is_alphanumeric(c: char) -> bool;

/// What `char::is_numeric` answers for a character.
pub uninterp spec fn spec_is_numeric(c: char) -> bool;

/// An ASCII letter or digit.
pub open spec fn ascii_alphanumeric(c: char) -> bool {
    ('a' <= c && c <= 'z') || ('A' <= c && c <= 'Z') || ('0' <= c && c <= '9')
}

/// Calls `char::is_alphanumeric` (Unicode alphabetic or numeric). Its
/// answer is named by `spec_is_alphanumeric`; for ASCII characters it is
/// true exactly for letters and digits.
#[verifier::external_body]
fn char_is_alphanumeric(c: char) -> (r: bool)
    ensures
        r == spec_is_alphanumeric(c),
        (c as u32) < 128 ==> r == ascii_alphanumeric(c),
{
    c.is_alphanumeric()
}

/// Calls `char::is_numeric` (Unicode number categories). Its answer is
/// named by `spec_is_numeric`; for ASCII characters it is true exactly for
/// digits.
#[verifier::external_body]
fn char_is_numeric(c: char) -> (r: bool)
    ensures
        r == spec_is_numeric(c),
        (c as u32) < 128 ==> r == ('0' <= c && c <= '9'),
{
    c.is_numeric()
}

/// Every character that is not alphanumeric replaced by `_`.
pub open spec fn clean_chars(s: Seq<char>) -> Seq<char> {
    Seq::new(s.len(), |i: int| if spec_is_alphanumeric(s[i]) { s[i] } else { '_' })
}

/// A legal HDL identifier for a name: non-alphanumeric characters become
/// `_`, and `net_` is put in front of an empty result or one that starts
/// with a digit.
pub open spec fn spec_sanitize(s: Seq<char>) -> Seq<char> {
    let c = clean_chars(s);
    if c.len() == 0 || spec_is_numeric(c[0]) { "net_"@ + c } else { c }
}

/// An ASCII digit.
pub open spec fn ascii_digit(c: char) -> bool {
    '0' <= c && c <= '9'
}

/// `clean_chars` for ASCII text: every character that is not an ASCII
/// letter or digit replaced by `_`.
pub open spec fn ascii_clean(s: Seq<char>) -> Seq<char> {
    Seq::new(s.len(), |i: int| if ascii_alphanumeric(s[i]) { s[i] } else { '_' })
}

/// `spec_sanitize` for ASCII text.
pub open spec fn ascii_sanitize(s: Seq<char>) -> Seq<char> {
    let c = ascii_clean(s);
    if c.len() == 0 || ascii_digit(c[0]) { "net_"@ + c } else { c }
}

/// A legal identifier: not empty, not starting with a digit, and made of
/// ASCII letters, digits and `_`.
pub open spec fn legal_identifier(s: Seq<char>) -> bool {
    &&& s.len() > 0
    &&& !ascii_digit(s[0])
    &&& forall|i: int| 0 <= i < s.len() ==> ascii_alphanumeric(#[trigger] s[i]) || s[i] == '_'
}

/// A legal name: not empty, not starting with a numeric character, and made
/// of alphanumeric characters and `_` (as `char` classifies them).
pub open spec fn legal_name(s: Seq<char>) -> bool {
    &&& s.len() > 0
    &&& !spec_is_numeric(s[0])
    &&& forall|i: int| 0 <= i < s.len() ==> spec_is_alphanumeric(#[trigger] s[i]) || s[i] == '_'
}

/// `clean_chars` of a string; for ASCII text also `ascii_clean` of it.
fn clean_text(s: &str) -> (r: String)
    ensures
        r@ == clean_chars(s@),
        all_ascii(s@) ==> r@ == ascii_clean(s@),
{
    let n = s.unicode_len();
    let mut clean = String::new();
    let mut i: usize = 0;
    while i < n
        invariant
            i <= n,
            n == s@.len(),
            clean@ =~= clean_chars(s@).take(i as int),
            all_ascii(s@) ==> clean@ =~= ascii_clean(s@).take(i as int),
        decreases n - i,
    {
        let c = s.get_char(i);
        proof {
            if all_ascii(s@) {
                assert((s@[i as int] as u32) < 128);
            }
        }
        push_char(&mut clean, if char_is_alphanumeric(c) { c } else { '_' });
        i = i + 1;
    }
    assert(clean_chars(s@).take(n as int) =~= clean_chars(s@));
    assert(ascii_clean(s@).take(n as int) =~= ascii_clean(s@));
    clean
}

/// Cleaning a string made of alphanumeric characters and `_` changes
/// nothing.
proof fn lemma_clean_legal_chars(s: Seq<char>)
    requires
        forall|i: int| 0 <= i < s.len() ==> spec_is_alphanumeric(#[trigger] s[i]) || s[i] == '_',
    ensures
        clean_chars(s) == s,
{
    assert(clean_chars(s) =~= s);
}

/// A legal HDL identifier for a name (see `spec_sanitize`); for an ASCII
/// name, `ascii_sanitize` of it. The result is a legal name, sanitizing it
/// again changes nothing, and a legal name is kept as it is.
pub fn sanitize_identifier(s: &str) -> (r: String)
    ensures
        r@ == spec_sanitize(s@),
        all_ascii(s@) ==> r@ == ascii_sanitize(s@),
        legal_name(r@),
        spec_sanitize(r@) == r@,
        legal_name(s@) ==> r@ == s@,
{
    let mut r = clean_text(s);
    let ghost c = r@;
    proof {
        if all_ascii(s@) && c.len() > 0 {
            assert((c[0] as u32) < 128) by {
                assert((s@[0] as u32) < 128);
            }
        }
    }
    // Put `net_` in front while the name is empty or starts with a numeric
    // character; the prefix starts with a letter, so this happens once.
    let mut prefixed = false;
    loop
        invariant_except_break
            c == clean_chars(s@),
            all_ascii(s@) ==> c == ascii_clean(s@),
            all_ascii(s@) && c.len() > 0 ==> (c[0] as u32) < 128,
            !prefixed ==> r@ == c,
            prefixed ==> r@ == "net_"@ + c && (c.len() == 0 || spec_is_numeric(c[0])),
            prefixed ==> spec_is_alphanumeric('n') && spec_is_alphanumeric('e') && spec_is_alphanumeric('t'),
            all_ascii(s@) && prefixed ==> (c.len() == 0 || ascii_digit(c[0])),
        ensures
            c == clean_chars(s@),
            all_ascii(s@) ==> c == ascii_clean(s@),
            !prefixed ==> r@ == c,
            prefixed ==> r@ == "net_"@ + c && (c.len() == 0 || spec_is_numeric(c[0])),
            r@.len() > 0 && !spec_is_numeric(r@[0]),
            prefixed ==> spec_is_alphanumeric('n') && spec_is_alphanumeric('e') && spec_is_alphanumeric('t'),
            all_ascii(s@) && prefixed ==> (c.len() == 0 || ascii_digit(c[0])),
            all_ascii(s@) && !prefixed ==> !(c.len() == 0 || ascii_digit(c[0])),
        decreases (if prefixed { 0int } else { 1int }),
    {
        proof {
            reveal_strlit("net_");
            if prefixed {
                assert(r@[0] == 'n');
            }
        }
        let m = r.as_str().unicode_len();
        let needs = m == 0 || char_is_numeric(r.as_str().get_char(0));
        if !needs {
            break;
        }
        let mut p = clean_text("net_");
        proof {
            reveal_strlit("net_");
            assert forall|i: int| 0 <= i < "net_"@.len() implies (#[trigger] "net_"@[i] as u32) < 128 by {}
            assert(p@ =~= "net_"@);
            assert(p@[0] == clean_chars("net_"@)[0]);
            assert(p@[1] == clean_chars("net_"@)[1]);
            assert(p@[2] == clean_chars("net_"@)[2]);
        }
        append_str(&mut p, r.as_str());
        r = p;
        prefixed = true;
    }
    proof {
        reveal_strlit("net_");
        let t = r@;
        assert forall|i: int| 0 <= i < c.len() implies spec_is_alphanumeric(#[trigger] c[i]) || c[i] == '_' by {}
        if prefixed {
            assert(t =~= "net_"@ + c);
            assert forall|i: int| 0 <= i < t.len() implies spec_is_alphanumeric(#[trigger] t[i]) || t[i] == '_' by {
                if i >= 4 {
                    assert(t[i] == c[i - 4]);
                }
            }
        }
        lemma_clean_legal_chars(t);
        if legal_name(s@) {
            lemma_clean_legal_chars(s@);
        }
    }
    r
}

/// Sanitizing yields a legal identifier.
pub proof fn lemma_sanitize_legal(s: Seq<char>)
    ensures
        legal_identifier(ascii_sanitize(s)),
{
    reveal_strlit("net_");
    let c = ascii_clean(s);
    let r = ascii_sanitize(s);
    if c.len() == 0 || ascii_digit(c[0]) {
        assert forall|i: int| 0 <= i < r.len() implies ascii_alphanumeric(#[trigger] r[i]) || r[i] == '_' by {
            if i >= 4 {
                assert(r[i] == c[i - 4]);
            }
        }
    }
}

/// Sanitizing a sanitized name changes nothing.
pub proof fn lemma_sanitize_idempotent(s: Seq<char>)
    ensures
        ascii_sanitize(ascii_sanitize(s)) == ascii_sanitize(s),
{
    let r = ascii_sanitize(s);
    lemma_sanitize_legal(s);
    assert(ascii_clean(r) =~= r) by {
        assert forall|i: int| 0 <= i < r.len() implies ascii_clean(r)[i] == r[i] by {
            assert(ascii_alphanumeric(r[i]) || r[i] == '_');
        }
    }
}

/// How a slot-map key prints: `<index>v<version>`, or `null` for the null
/// key.
pub open spec fn key_debug(raw: u64) -> Seq<char> {
    let idx = raw % 0x1_0000_0000;
    let ver = raw / 0x1_0000_0000;
    if idx == 0xFFFF_FFFF { "null"@ } else { spec_decimal(idx as nat) + "v"@ + spec_decimal(ver as nat) }
}

/// How a component id prints: `ComponentId(<key>)`.
pub open spec fn component_debug(raw: u64) -> Seq<char> {
    "ComponentId("@ + key_debug(raw) + ")"@
}

/// How a net id prints: `NetId(<key>)`.
pub open spec fn net_debug(raw: u64) -> Seq<char> {
    "NetId("@ + key_debug(raw) + ")"@
}

/// The alphanumeric characters of a string, in order.
pub open spec fn alnum_only(s: Seq<char>) -> Seq<char>
    decreases s.len(),
{
    if s.len() == 0 {
        s
    } else {
        let r = alnum_only(s.drop_last());
        if spec_is_alphanumeric(s.last()) { r.push(s.last()) } else { r }
    }
}

/// The suffix naming a component in HDL: the alphanumeric characters of
/// how its id prints.
pub open spec fn spec_id_suffix(raw: u64) -> Seq<char> {
    alnum_only(component_debug(raw))
}

fn key_debug_string(prefix: &str, raw: u64) -> (r: String)
    ensures
        r@ == prefix@ + key_debug(raw) + ")"@,
{
    let mut s = String::from_str(prefix);
    let idx = raw % 0x1_0000_0000;
    let ver = raw / 0x1_0000_0000;
    if idx == 0xFFFF_FFFF {
        append_str(&mut s, "null");
    } else {
        append_decimal(&mut s, idx);
        append_str(&mut s, "v");
        append_decimal(&mut s, ver);
    }
    append_str(&mut s, ")");
    s
}

/// How a component id prints (see `component_debug`).
pub fn component_debug_string(id: ComponentId) -> (r: String)
    ensures
        r@ == component_debug(id@),
{
    key_debug_string("ComponentId(", id.raw())
}

/// How a net id prints (see `net_debug`).
pub fn net_debug_string(raw: u64) -> (r: String)
    ensures
        r@ == net_debug(raw),
{
    key_debug_string("NetId(", raw)
}

/// The suffix naming a component in HDL (see `spec_id_suffix`).
pub fn id_suffix(id: ComponentId) -> (r: String)
    ensures
        r@ == spec_id_suffix(id@),
{
    let raw = component_debug_string(id);
    let n = raw.as_str().unicode_len();
    let mut out = String::new();
    let mut i: usize = 0;
    while i < n
        invariant
            i <= n,
            n == raw@.len(),
            raw@ == component_debug(id@),
            out@ == alnum_only(raw@.take(i as int)),
        decreases n - i,
    {
        let c = raw.as_str().get_char(i);
        proof {
            assert(raw@.take(i + 1).drop_last() =~= raw@.take(i as int));
        }
        if char_is_alphanumeric(c) {
            push_char(&mut out, c);
        }
        i = i + 1;
    }
    assert(raw@.take(n as int) =~= raw@);
    out
}

// ------------------------------------------------------------------
// Ordering names
// ------------------------------------------------------------------

/// String order: lexicographic by character code (the order of `String`).
pub open spec fn str_lt(a: Seq<char>, b: Seq<char>) -> bool
    decreases a.len(),
{
    if b.len() == 0 {
        false
    } else if a.len() == 0 {
        true
    } else if a[0] != b[0] {
        (a[0] as u32) < (b[0] as u32)
    } else {
        str_lt(a.drop_first(), b.drop_first())
    }
}

/// Whether `a` sorts before `b`.
fn string_lt(a: &str, b: &str) -> (r: bool)
    ensures
        r == str_lt(a@, b@),
{
    let n = a.unicode_len();
    let m = b.unicode_len();
    let mut i: usize = 0;
    assert(a@.skip(0) =~= a@);
    assert(b@.skip(0) =~= b@);
    while i < n && i < m && a.get_char(i) == b.get_char(i)
        invariant
            i <= n,
            i <= m,
            n == a@.len(),
            m == b@.len(),
            str_lt(a@, b@) == str_lt(a@.skip(i as int), b@.skip(i as int)),
        decreases n - i,
    {
        proof {
            assert(a@.skip(i as int).drop_first() =~= a@.skip(i + 1));
            assert(b@.skip(i as int).drop_first() =~= b@.skip(i + 1));
        }
        i = i + 1;
    }
    if i == m {
        assert(b@.skip(i as int).len() == 0);
        false
    } else if i == n {
        assert(a@.skip(i as int).len() == 0);
        true
    } else {
        assert(a@.skip(i as int)[0] == a@[i as int]);
        assert(b@.skip(i as int)[0] == b@[i as int]);
        (a.get_char(i) as u32) < (b.get_char(i) as u32)
    }
}

/// Where a name goes in a sorted list: after every name not greater.
pub open spec fn name_pos(s: Seq<Seq<char>>, x: Seq<char>) -> int
    decreases s.len(),
{
    if s.len() == 0 {
        0
    } else if str_lt(x, s[0]) {
        0
    } else {
        1 + name_pos(s.drop_first(), x)
    }
}

/// Names sorted by insertion (in string order, stable).
pub open spec fn sort_names(s: Seq<Seq<char>>) -> Seq<Seq<char>>
    decreases s.len(),
{
    if s.len() == 0 {
        s
    } else {
        let r = sort_names(s.drop_last());
        r.insert(name_pos(r, s.last()), s.last())
    }
}

proof fn lemma_name_pos(s: Seq<Seq<char>>, x: Seq<char>, j: int)
    requires
        0 <= j <= s.len(),
        forall|m: int| 0 <= m < j ==> !str_lt(x, #[trigger] s[m]),
        j == s.len() || str_lt(x, s[j]),
    ensures
        name_pos(s, x) == j,
    decreases j,
{
    if j > 0 {
        assert forall|m: int| 0 <= m < j - 1 implies !str_lt(x, #[trigger] s.drop_first()[m]) by {
            assert(s.drop_first()[m] == s[m + 1]);
        }
        lemma_name_pos(s.drop_first(), x, j - 1);
    }
}

/// Sorts names (see `sort_names`).
fn sort_strings(v: &Vec<String>) -> (r: Vec<String>)
    ensures
        views(r@) == sort_names(views(v@)),
{
    let mut r: Vec<String> = Vec::new();
    let mut i: usize = 0;
    while i < v.len()
        invariant
            i <= v.len(),
            views(r@) == sort_names(views(v@).take(i as int)),
        decreases v.len() - i,
    {
        let x = v[i].clone();
        let mut j: usize = 0;
        while j < r.len() && !string_lt(x.as_str(), r[j].as_str())
            invariant
                j <= r.len(),
                forall|m: int| 0 <= m < j ==> !str_lt(x@, #[trigger] views(r@)[m]),
            decreases r.len() - j,
        {
            j = j + 1;
        }
        proof {
            lemma_name_pos(views(r@), x@, j as int);
            assert(views(v@).take(i + 1).drop_last() =~= views(v@).take(i as int));
            assert(views(v@).take(i + 1).last() == x@);
        }
        let ghost before = r@;
        r.insert(j, x);
        proof {
            assert(views(r@) =~= views(before).insert(j as int, x@));
        }
        i = i + 1;
    }
    assert(views(v@).take(v.len() as int) =~= views(v@));
    r
}

} // verus!

verus! {

// ------------------------------------------------------------------
// What an export holds
// ------------------------------------------------------------------

/// The endpoint of port `p` of the component with key `id`.
pub open spec fn endpoint(id: u64, is_output: bool, p: int) -> PortEndpoint {
    PortEndpoint { component_id: id_of(id), is_output, port_index: p as usize }
}

/// HDL ports among the first `k` components: inputs are switches (`sw`)
/// and clocks (`clk`), outputs are LEDs (`led`), in iteration order.
pub open spec fn scan_hdl(comps: Seq<(u64, NodeView)>, outputs: bool, k: int) -> Seq<(u64, Seq<char>)>
    decreases k,
{
    if k <= 0 || k > comps.len() {
        Seq::empty()
    } else {
        let r = scan_hdl(comps, outputs, k - 1);
        let e = comps[k - 1];
        if outputs {
            if e.1.kind is Led { r.push((e.0, "led"@)) } else { r }
        } else if e.1.kind is ToggleSwitch {
            r.push((e.0, "sw"@))
        } else if e.1.kind is Clock {
            r.push((e.0, "clk"@))
        } else {
            r
        }
    }
}

/// Where a port goes when ports are ordered by how their ids print.
pub open spec fn port_pos(s: Seq<(u64, Seq<char>)>, x: (u64, Seq<char>)) -> int
    decreases s.len(),
{
    if s.len() == 0 {
        0
    } else if str_lt(component_debug(x.0), component_debug(s[0].0)) {
        0
    } else {
        1 + port_pos(s.drop_first(), x)
    }
}

/// Ports stably sorted by how their ids print.
pub open spec fn sort_ports(s: Seq<(u64, Seq<char>)>) -> Seq<(u64, Seq<char>)>
    decreases s.len(),
{
    if s.len() == 0 {
        s
    } else {
        let r = sort_ports(s.drop_last());
        r.insert(port_pos(r, s.last()), s.last())
    }
}

/// The HDL input (`outputs == false`) or output ports of a circuit.
pub open spec fn hdl_ports(comps: Seq<(u64, NodeView)>, outputs: bool) -> Seq<(u64, Seq<char>)> {
    sort_ports(scan_hdl(comps, outputs, comps.len() as int))
}

/// A port's HDL name: its sanitized name, `_`, its component's suffix.
pub open spec fn port_name(e: (u64, Seq<char>)) -> Seq<char> {
    spec_sanitize(e.1) + "_"@ + spec_id_suffix(e.0)
}

/// The first `k` ports entered into a wire map under port 0 of their
/// component (the output port for inputs, the input port for outputs).
pub open spec fn map_ports(m: Map<PortEndpoint, Seq<char>>, ps: Seq<(u64, Seq<char>)>, is_output: bool, k: int) -> Map<PortEndpoint, Seq<char>>
    decreases k,
{
    if k <= 0 || k > ps.len() {
        m
    } else {
        map_ports(m, ps, is_output, k - 1).insert(endpoint(ps[k - 1].0, is_output, 0), port_name(ps[k - 1]))
    }
}

/// The wire map before the nets are walked: inputs, then outputs.
pub open spec fn initial_map(ins: Seq<(u64, Seq<char>)>, outs: Seq<(u64, Seq<char>)>) -> Map<PortEndpoint, Seq<char>> {
    map_ports(map_ports(Map::empty(), ins, true, ins.len() as int), outs, false, outs.len() as int)
}

/// The declarations of the ports, each behind its prefix; a placeholder
/// when there are none.
pub open spec fn port_decls(ins: Seq<(u64, Seq<char>)>, outs: Seq<(u64, Seq<char>)>, in_pre: Seq<char>, out_pre: Seq<char>, post: Seq<char>, none: Seq<char>) -> Seq<Seq<char>> {
    let d = Seq::new(ins.len(), |i: int| in_pre + port_name(ins[i]) + post) + Seq::new(
        outs.len(),
        |i: int| out_pre + port_name(outs[i]) + post,
    );
    if d.len() == 0 { seq![none] } else { d }
}

/// The name of a net: its sanitized label, or the prefix and how its id
/// prints.
pub open spec fn net_label(e: (u64, NetView), prefix: Seq<char>) -> Seq<char> {
    match e.1.label {
        Some(l) => spec_sanitize(l),
        None => prefix + net_debug(e.0),
    }
}

/// A name added to a list unless already there.
pub open spec fn add_wire(w: Seq<Seq<char>>, x: Seq<char>) -> Seq<Seq<char>> {
    if w.contains(x) { w } else { w.push(x) }
}

/// Walks the first `k` sinks of a net whose source wire is `src`: a sink
/// already in the map is, in Verilog, assigned from the source (in VHDL it
/// keeps its wire); any other sink joins the source wire.
pub open spec fn sink_pass(
    code: Seq<char>,
    m: Map<PortEndpoint, Seq<char>>,
    sinks: Seq<PortEndpoint>,
    src: Seq<char>,
    verilog: bool,
    k: int,
) -> (Seq<char>, Map<PortEndpoint, Seq<char>>)
    decreases k,
{
    if k <= 0 || k > sinks.len() {
        (code, m)
    } else {
        let p = sink_pass(code, m, sinks, src, verilog, k - 1);
        let s = sinks[k - 1];
        if p.1.contains_key(s) {
            if verilog {
                (p.0 + "    assign "@ + p.1[s] + " = "@ + src + ";\n"@, p.1)
            } else {
                (p.0, p.1.insert(s, p.1[s]))
            }
        } else {
            (p.0, p.1.insert(s, src))
        }
    }
}

/// Walks the first `k` nets: the source's wire is its mapped name, or else
/// the net's name (which becomes an internal wire); then the sinks.
pub open spec fn net_pass(
    code: Seq<char>,
    m: Map<PortEndpoint, Seq<char>>,
    wires: Seq<Seq<char>>,
    nets: Seq<(u64, NetView)>,
    verilog: bool,
    k: int,
) -> (Seq<char>, Map<PortEndpoint, Seq<char>>, Seq<Seq<char>>)
    decreases k,
{
    if k <= 0 || k > nets.len() {
        (code, m, wires)
    } else {
        let p = net_pass(code, m, wires, nets, verilog, k - 1);
        let e = nets[k - 1];
        let nn = net_label(e, if verilog { "wire_"@ } else { "sig_"@ });
        let known = p.1.contains_key(e.1.source);
        let src = if known { p.1[e.1.source] } else { nn };
        let w = if known { p.2 } else { add_wire(p.2, nn) };
        let r = sink_pass(p.0, p.1.insert(e.1.source, src), e.1.sinks, src, verilog, e.1.sinks.len() as int);
        (r.0, r.1, w)
    }
}

/// Each name between a prefix and a suffix, concatenated.
pub open spec fn wire_lines(ws: Seq<Seq<char>>, pre: Seq<char>, post: Seq<char>) -> Seq<char>
    decreases ws.len(),
{
    if ws.len() == 0 { Seq::empty() } else { wire_lines(ws.drop_last(), pre, post) + pre + ws.last() + post }
}

/// The wire feeding input port `p` of a component, or the default.
pub open spec fn in_wire(m: Map<PortEndpoint, Seq<char>>, id: u64, p: int, dflt: Seq<char>) -> Seq<char> {
    if m.contains_key(endpoint(id, false, p)) { m[endpoint(id, false, p)] } else { dflt }
}

/// The wire driven by output port `p` of a component, or an open name
/// `<prefix><suffix>_<p>`.
pub open spec fn out_wire(m: Map<PortEndpoint, Seq<char>>, id: u64, p: int, prefix: Seq<char>) -> Seq<char> {
    if m.contains_key(endpoint(id, true, p)) {
        m[endpoint(id, true, p)]
    } else {
        prefix + spec_id_suffix(id) + "_"@ + spec_decimal(p as nat)
    }
}

/// A Verilog input wire (`1'b0` when unconnected).
pub open spec fn v_in(m: Map<PortEndpoint, Seq<char>>, id: u64, p: int) -> Seq<char> {
    in_wire(m, id, p, "1'b0"@)
}

/// A Verilog output wire (`open_out_<suffix>_<p>` when unconnected).
pub open spec fn v_out(m: Map<PortEndpoint, Seq<char>>, id: u64, p: int) -> Seq<char> {
    out_wire(m, id, p, "open_out_"@)
}

/// A two-input primitive: `<prefix><suffix> (<out>, <a>, <b>);`.
pub open spec fn gate2_line(pre: Seq<char>, m: Map<PortEndpoint, Seq<char>>, id: u64) -> Seq<char> {
    pre + spec_id_suffix(id) + " ("@ + v_out(m, id, 0) + ", "@ + v_in(m, id, 0) + ", "@ + v_in(m, id, 1) + ");\n"@
}

/// `{<outs, high first>} = <expression>`: an assignment to several outputs.
pub open spec fn v_braced(m: Map<PortEndpoint, Seq<char>>, id: u64, hi: int) -> Seq<char>
    decreases hi,
{
    if hi <= 0 { v_out(m, id, 0) } else { v_out(m, id, hi) + ", "@ + v_braced(m, id, hi - 1) }
}

/// Input wires `from` down to `to`, comma separated.
pub open spec fn v_ins_down(m: Map<PortEndpoint, Seq<char>>, id: u64, from: int, to: int) -> Seq<char>
    decreases from - to,
{
    if from <= to { v_in(m, id, to) } else { v_in(m, id, from) + ", "@ + v_ins_down(m, id, from - 1, to) }
}

/// The port connections of a subcircuit instance.
pub open spec fn instance_conns(m: Map<PortEndpoint, Seq<char>>, id: u64, n_in: nat, n_out: nat) -> Seq<Seq<char>> {
    Seq::new(n_in, |i: int| "        .in_"@ + spec_decimal(i as nat) + "("@ + v_in(m, id, i) + ")"@) + Seq::new(
        n_out,
        |i: int| "        .out_"@ + spec_decimal(i as nat) + "("@ + v_out(m, id, i) + ")"@,
    )
}

/// The Verilog text instantiating one component.
pub open spec fn verilog_line(m: Map<PortEndpoint, Seq<char>>, e: (u64, NodeView)) -> Seq<char> {
    let id = e.0;
    let sid = spec_id_suffix(id);
    match e.1.kind {
        GateKind::And => gate2_line("    and  gate_and_"@, m, id),
        GateKind::Or => gate2_line("    or   gate_or_"@, m, id),
        GateKind::Not => "    not  gate_not_"@ + sid + " ("@ + v_out(m, id, 0) + ", "@ + v_in(m, id, 0) + ");\n"@,
        GateKind::Nand => gate2_line("    nand gate_nand_"@, m, id),
        GateKind::Nor => gate2_line("    nor  gate_nor_"@, m, id),
        GateKind::Xor => gate2_line("    xor  gate_xor_"@, m, id),
        GateKind::Xnor => gate2_line("    xnor gate_xnor_"@, m, id),
        GateKind::HalfAdder => "    assign {"@ + v_braced(m, id, 1) + "} = "@ + v_in(m, id, 0) + " + "@ + v_in(m, id, 1) + ";\n"@,
        GateKind::FullAdder => "    assign {"@ + v_braced(m, id, 1) + "} = "@ + v_in(m, id, 0) + " + "@ + v_in(m, id, 1) + " + "@
            + v_in(m, id, 2) + ";\n"@,
        GateKind::HalfSubtractor => "    assign {"@ + v_braced(m, id, 1) + "} = "@ + v_in(m, id, 0) + " - "@ + v_in(m, id, 1) + ";\n"@,
        GateKind::FullSubtractor => "    assign {"@ + v_braced(m, id, 1) + "} = "@ + v_in(m, id, 0) + " - "@ + v_in(m, id, 1) + " - "@
            + v_in(m, id, 2) + ";\n"@,
        GateKind::RippleCarryAdder4 | GateKind::CarryLookaheadAdder4 => "    assign {"@ + v_braced(m, id, 4) + "} = {"@
            + v_ins_down(m, id, 3, 0) + "} + {"@ + v_ins_down(m, id, 7, 4) + "} + "@ + v_in(m, id, 8) + ";\n"@,
        GateKind::Mux2 => "    assign "@ + v_out(m, id, 0) + " = "@ + v_in(m, id, 2) + " ? "@ + v_in(m, id, 1) + " : "@ + v_in(m, id, 0) + ";\n"@,
        GateKind::DFlipFlop => dff_text(m, id),
        GateKind::SubcircuitInstance(name) => instance_text(m, id, name@, e.1.input_signals.len(), e.1.output_signals.len()),
        _ => Seq::empty(),
    }
}

/// A VHDL input wire (`'0'` when unconnected).
pub open spec fn h_in(m: Map<PortEndpoint, Seq<char>>, id: u64, p: int) -> Seq<char> {
    in_wire(m, id, p, "'0'"@)
}

/// A VHDL output wire (`open_<suffix>_<p>` when unconnected).
pub open spec fn h_out(m: Map<PortEndpoint, Seq<char>>, id: u64, p: int) -> Seq<char> {
    out_wire(m, id, p, "open_"@)
}

/// A VHDL assignment `<out> <= <pre><a><mid><b><post>;`.
pub open spec fn vhdl2(m: Map<PortEndpoint, Seq<char>>, id: u64, pre: Seq<char>, mid: Seq<char>, post: Seq<char>) -> Seq<char> {
    "    "@ + h_out(m, id, 0) + " <= "@ + pre + h_in(m, id, 0) + mid + h_in(m, id, 1) + post + ";\n"@
}

/// The VHDL text for one component.
pub open spec fn vhdl_line(m: Map<PortEndpoint, Seq<char>>, e: (u64, NodeView)) -> Seq<char> {
    let id = e.0;
    match e.1.kind {
        GateKind::And => vhdl2(m, id, ""@, " and "@, ""@),
        GateKind::Or => vhdl2(m, id, ""@, " or "@, ""@),
        GateKind::Not => "    "@ + h_out(m, id, 0) + " <= not "@ + h_in(m, id, 0) + ";\n"@,
        GateKind::Nand => vhdl2(m, id, "not ("@, " and "@, ")"@),
        GateKind::Nor => vhdl2(m, id, "not ("@, " or "@, ")"@),
        GateKind::Xor => vhdl2(m, id, ""@, " xor "@, ""@),
        GateKind::Xnor => vhdl2(m, id, "not ("@, " xor "@, ")"@),
        GateKind::Mux2 => "    "@ + h_out(m, id, 0) + " <= "@ + h_in(m, id, 1) + " when "@ + h_in(m, id, 2) + " = '1' else "@
            + h_in(m, id, 0) + ";\n"@,
        _ => Seq::empty(),
    }
}

/// The instantiation text of the first `k` components.
pub open spec fn comp_pass(m: Map<PortEndpoint, Seq<char>>, comps: Seq<(u64, NodeView)>, verilog: bool, k: int) -> Seq<char>
    decreases k,
{
    if k <= 0 || k > comps.len() {
        Seq::empty()
    } else {
        comp_pass(m, comps, verilog, k - 1) + if verilog { verilog_line(m, comps[k - 1]) } else { vhdl_line(m, comps[k - 1]) }
    }
}

/// The banner rule.
pub open spec fn rule(comment: Seq<char>) -> Seq<char> {
    comment + " ============================================================================="@
}

/// The Verilog modules of the first `k` registered subcircuits, each
/// followed by a blank line.
pub open spec fn sub_modules(c: Circuit, k: int) -> Seq<char>
    decreases c, 0int, k,
{
    if k <= 0 || k > c.subcircuits@.len() {
        Seq::empty()
    } else {
        proof {
            assert(decreases_to!(c => c.subcircuits));
            assert(decreases_to!(c.subcircuits => c.subcircuits@));
            assert(decreases_to!(c.subcircuits@ => c.subcircuits@[k - 1]));
            assert(decreases_to!(c.subcircuits@[k - 1] => c.subcircuits@[k - 1].1));
            assert(decreases_to!(c.subcircuits@[k - 1].1 => c.subcircuits@[k - 1].1.circuit));
        }
        let e = c.subcircuits@[k - 1];
        sub_modules(c, k - 1) + spec_verilog(e.1.circuit, e.0@) + "\n"@
    }
}

/// The Verilog text of a circuit: a banner, the subcircuit modules, then a
/// module with the switches and clocks as inputs and the LEDs as outputs,
/// the net assignments, the internal wires (sorted) and one instantiation
/// per component.
pub open spec fn spec_verilog(c: Circuit, name: Seq<char>) -> Seq<char>
    decreases c, 1int, 0int,
{
    let clean = spec_sanitize(name);
    let comps = component_slots(c.components);
    let nets = net_slots(c.nets);
    let head = rule("//"@) + "\n"@ + "// Logic Lab HDL Export: "@ + clean + "\n"@ + "// Generated automatically by Logic Lab\n"@
        + rule("//"@) + "\n\n"@;
    let ins = hdl_ports(comps, false);
    let outs = hdl_ports(comps, true);
    let decls = port_decls(ins, outs, "    input  wire "@, "    output wire "@, ""@, "    // No external ports connected"@);
    let ports = "module "@ + clean + " (\n"@ + join(decls, ",\n"@) + "\n);\n\n"@;
    let np = net_pass(Seq::empty(), initial_map(ins, outs), Seq::empty(), nets, true, nets.len() as int);
    let wires = if np.2.len() == 0 {
        Seq::empty()
    } else {
        "    // Internal signals\n"@ + wire_lines(sort_names(np.2), "    wire "@, ";\n"@) + "\n"@
    };
    head + sub_modules(c, c.subcircuits@.len() as int) + ports + np.0 + wires + "    // Component Instantiations\n"@
        + comp_pass(np.1, comps, true, comps.len() as int) + "\nendmodule\n"@
}

/// The VHDL banner and library clauses.
pub open spec fn vhdl_head(clean: Seq<char>) -> Seq<char> {
    rule("--"@) + "\n"@ + "-- Logic Lab VHDL Export: "@ + clean + "\n"@ + "-- Generated automatically by Logic Lab\n"@
        + rule("--"@) + "\n\n"@ + "library IEEE;\n"@ + "use IEEE.STD_LOGIC_1164.ALL;\n"@ + "use IEEE.NUMERIC_STD.ALL;\n\n"@
}

/// The VHDL entity declaration and the architecture's first line.
pub open spec fn vhdl_entity(clean: Seq<char>, ins: Seq<(u64, Seq<char>)>, outs: Seq<(u64, Seq<char>)>) -> Seq<char> {
    "entity "@ + clean + " is\n"@ + "    Port (\n"@ + join(port_decls_vhdl(ins, outs), ";\n"@) + "\n    );\n"@ + "end "@ + clean
        + ";\n\n"@ + "architecture Structural of "@ + clean + " is\n"@
}

/// The VHDL text of a circuit: a banner and the IEEE libraries, an entity
/// with the switches and clocks as inputs and the LEDs as outputs, and a
/// structural architecture with the internal signals (sorted) and one
/// assignment per supported component.
pub open spec fn spec_vhdl(c: Circuit, name: Seq<char>) -> Seq<char> {
    let clean = spec_sanitize(name);
    let comps = component_slots(c.components);
    let nets = net_slots(c.nets);
    let ins = hdl_ports(comps, false);
    let outs = hdl_ports(comps, true);
    let np = net_pass(Seq::empty(), initial_map(ins, outs), Seq::empty(), nets, false, nets.len() as int);
    vhdl_head(clean) + vhdl_entity(clean, ins, outs) + wire_lines(sort_names(np.2), "    signal "@, " : STD_LOGIC := '0';\n"@)
        + "begin\n"@ + comp_pass(np.1, comps, false, comps.len() as int) + "end Structural;\n"@
}

/// VHDL port declarations (inputs `in`, outputs `out`).
pub open spec fn port_decls_vhdl(ins: Seq<(u64, Seq<char>)>, outs: Seq<(u64, Seq<char>)>) -> Seq<Seq<char>> {
    let d = Seq::new(ins.len(), |i: int| "        "@ + port_name(ins[i]) + " : in  STD_LOGIC"@) + Seq::new(
        outs.len(),
        |i: int| "        "@ + port_name(outs[i]) + " : out STD_LOGIC"@,
    );
    if d.len() == 0 { seq!["        dummy_port : in STD_LOGIC"@] } else { d }
}

} // verus!

verus! {

// ------------------------------------------------------------------
// Executable export: ports and the wire map
// ------------------------------------------------------------------

/// The wire map as a map: later entries win.
pub open spec fn assoc(v: Seq<(PortEndpoint, String)>) -> Map<PortEndpoint, Seq<char>>
    decreases v.len(),
{
    if v.len() == 0 {
        Map::empty()
    } else {
        assoc(v.drop_last()).insert(v.last().0, v.last().1@)
    }
}

/// The wire of an endpoint: the last entry for it.
fn wire_get(m: &Vec<(PortEndpoint, String)>, ep: PortEndpoint) -> (r: Option<String>)
    ensures
        r is Some <==> assoc(m@).contains_key(ep),
        r matches Some(s) ==> s@ == assoc(m@)[ep],
{
    let mut i: usize = m.len();
    assert(m@.take(m.len() as int) =~= m@);
    while i > 0
        invariant
            i <= m.len(),
            forall|j: int| i <= j < m.len() ==> (#[trigger] m@[j]).0 != ep,
            assoc(m@).contains_key(ep) == assoc(m@.take(i as int)).contains_key(ep),
            assoc(m@).contains_key(ep) ==> assoc(m@)[ep] == assoc(m@.take(i as int))[ep],
        decreases i,
    {
        proof {
            assert(m@.take(i as int).drop_last() =~= m@.take(i - 1));
        }
        if m[i - 1].0 == ep {
            return Some(m[i - 1].1.clone());
        }
        i = i - 1;
    }
    proof {
        assert(m@.take(0) =~= Seq::<(PortEndpoint, String)>::empty());
    }
    None
}

/// Scans the components for HDL ports (see `scan_hdl`).
fn scan_hdl_exec(circuit: &Circuit, outputs: bool) -> (r: Vec<(ComponentId, String)>)
    ensures
        crate::verify::io_view(r@) == scan_hdl(circuit.comps(), outputs, circuit.comps().len() as int),
{
    let keys = component_slots_keys(&circuit.components);
    let ghost cs = circuit.comps();
    proof { crate::graph::lemma_keys_wf(cs, keys@); }
    let mut r: Vec<(ComponentId, String)> = Vec::new();
    let mut k: usize = 0;
    while k < keys.len()
        invariant
            k <= keys.len(),
            cs == circuit.comps(),
            keys@ == slot_keys(cs),
            slots_wf(cs),
            crate::verify::io_view(r@) == scan_hdl(cs, outputs, k as int),
        decreases keys.len() - k,
    {
        proof {
            assert(slot_keys(cs)[k as int] == keys@[k as int]);
            crate::slots::lemma_slot_get_at(cs, k as int);
        }
        let id = keys[k];
        let (is_sw, is_clk, is_led) = match component_slots_get(&circuit.components, id) {
            Some(n) => (
                matches!(n.kind, GateKind::ToggleSwitch),
                matches!(n.kind, GateKind::Clock),
                matches!(n.kind, GateKind::Led),
            ),
            None => (false, false, false),
        };
        let ghost before = r@;
        let name = if outputs {
            if is_led { Some(String::from_str("led")) } else { None }
        } else if is_sw {
            Some(String::from_str("sw"))
        } else if is_clk {
            Some(String::from_str("clk"))
        } else {
            None
        };
        match name {
            Some(nm) => {
                let ghost nv = nm@;
                r.push((ComponentId::from_key(id), nm));
                assert(crate::verify::io_view(r@) =~= crate::verify::io_view(before).push((id, nv)));
            },
            None => {},
        }
        k = k + 1;
    }
    assert(keys@.len() == cs.len());
    r
}

proof fn lemma_port_pos(s: Seq<(u64, Seq<char>)>, x: (u64, Seq<char>), j: int)
    requires
        0 <= j <= s.len(),
        forall|m: int| 0 <= m < j ==> !str_lt(component_debug(x.0), component_debug(#[trigger] s[m].0)),
        j == s.len() || str_lt(component_debug(x.0), component_debug(s[j].0)),
    ensures
        port_pos(s, x) == j,
    decreases j,
{
    if j > 0 {
        assert forall|m: int| 0 <= m < j - 1 implies !str_lt(component_debug(x.0), component_debug(#[trigger] s.drop_first()[m].0)) by {
            assert(s.drop_first()[m] == s[m + 1]);
        }
        lemma_port_pos(s.drop_first(), x, j - 1);
    }
}

/// Sorts ports by how their ids print (see `sort_ports`).
fn sort_ports_exec(v: Vec<(ComponentId, String)>) -> (r: Vec<(ComponentId, String)>)
    ensures
        crate::verify::io_view(r@) == sort_ports(crate::verify::io_view(v@)),
{
    let ghost vv = crate::verify::io_view(v@);
    let mut r: Vec<(ComponentId, String)> = Vec::new();
    let mut i: usize = 0;
    while i < v.len()
        invariant
            i <= v.len(),
            vv == crate::verify::io_view(v@),
            crate::verify::io_view(r@) == sort_ports(vv.take(i as int)),
        decreases v.len() - i,
    {
        let x = (v[i].0, v[i].1.clone());
        let xk = component_debug_string(x.0);
        let mut j: usize = 0;
        while j < r.len() && !string_lt(xk.as_str(), component_debug_string(r[j].0).as_str())
            invariant
                j <= r.len(),
                xk@ == component_debug(x.0@),
                forall|m: int| 0 <= m < j ==> !str_lt(component_debug(x.0@), component_debug(#[trigger] crate::verify::io_view(r@)[m].0)),
            decreases r.len() - j,
        {
            j = j + 1;
        }
        proof {
            lemma_port_pos(crate::verify::io_view(r@), (x.0@, x.1@), j as int);
            assert(vv.take(i + 1).drop_last() =~= vv.take(i as int));
            assert(vv.take(i + 1).last() == (x.0@, x.1@));
        }
        let ghost before = r@;
        r.insert(j, x);
        proof {
            assert(crate::verify::io_view(r@) =~= crate::verify::io_view(before).insert(j as int, (x.0@, x.1@)));
        }
        i = i + 1;
    }
    assert(vv.take(v.len() as int) =~= vv);
    r
}

/// A port's HDL name (see `port_name`).
fn port_name_exec(e: &(ComponentId, String)) -> (r: String)
    ensures
        r@ == port_name((e.0@, e.1@)),
{
    let mut s = sanitize_identifier(e.1.as_str());
    append_str(&mut s, "_");
    let suffix = id_suffix(e.0);
    append_str(&mut s, suffix.as_str());
    s
}

/// Enters ports into the wire map (see `map_ports`).
fn map_ports_exec(m: &mut Vec<(PortEndpoint, String)>, ps: &Vec<(ComponentId, String)>, is_output: bool)
    ensures
        assoc(final(m)@) == map_ports(assoc(old(m)@), crate::verify::io_view(ps@), is_output, ps@.len() as int),
{
    let mut k: usize = 0;
    while k < ps.len()
        invariant
            k <= ps.len(),
            assoc(m@) == map_ports(assoc(old(m)@), crate::verify::io_view(ps@), is_output, k as int),
        decreases ps.len() - k,
    {
        let name = port_name_exec(&ps[k]);
        let ep = PortEndpoint { component_id: ps[k].0, is_output, port_index: 0 };
        proof {
            crate::graph::lemma_id_of(ps@[k as int].0@, ps@[k as int].0);
            assert(ep == endpoint(ps@[k as int].0@, is_output, 0));
        }
        let ghost before = m@;
        m.push((ep, name));
        proof {
            assert(m@.drop_last() =~= before);
        }
        k = k + 1;
    }
}

/// Port declarations (see `port_decls` and `port_decls_vhdl`).
fn port_decls_exec(
    ins: &Vec<(ComponentId, String)>,
    outs: &Vec<(ComponentId, String)>,
    in_pre: &str,
    out_pre: &str,
    in_post: &str,
    out_post: &str,
    none: &str,
) -> (r: Vec<String>)
    ensures
        views(r@) == ({
            let d = Seq::new(ins@.len(), |i: int| in_pre@ + port_name(crate::verify::io_view(ins@)[i]) + in_post@) + Seq::new(
                outs@.len(),
                |i: int| out_pre@ + port_name(crate::verify::io_view(outs@)[i]) + out_post@,
            );
            if d.len() == 0 { seq![none@] } else { d }
        }),
{
    let ghost d = Seq::new(ins@.len(), |i: int| in_pre@ + port_name(crate::verify::io_view(ins@)[i]) + in_post@) + Seq::new(
        outs@.len(),
        |i: int| out_pre@ + port_name(crate::verify::io_view(outs@)[i]) + out_post@,
    );
    let mut r: Vec<String> = Vec::new();
    let mut i: usize = 0;
    while i < ins.len()
        invariant
            i <= ins.len(),
            views(r@) =~= d.take(i as int),
            d.len() == ins@.len() + outs@.len(),
            d == Seq::new(ins@.len(), |i: int| in_pre@ + port_name(crate::verify::io_view(ins@)[i]) + in_post@) + Seq::new(
                outs@.len(),
                |i: int| out_pre@ + port_name(crate::verify::io_view(outs@)[i]) + out_post@,
            ),
        decreases ins.len() - i,
    {
        let mut s = String::from_str(in_pre);
        let nm = port_name_exec(&ins[i]);
        append_str(&mut s, nm.as_str());
        append_str(&mut s, in_post);
        let ghost before = r@;
        r.push(s);
        proof {
            assert(views(r@) =~= views(before).push(s@));
        }
        i = i + 1;
    }
    let mut j: usize = 0;
    while j < outs.len()
        invariant
            j <= outs.len(),
            views(r@) =~= d.take(ins@.len() + j),
            d.len() == ins@.len() + outs@.len(),
            d == Seq::new(ins@.len(), |i: int| in_pre@ + port_name(crate::verify::io_view(ins@)[i]) + in_post@) + Seq::new(
                outs@.len(),
                |i: int| out_pre@ + port_name(crate::verify::io_view(outs@)[i]) + out_post@,
            ),
        decreases outs.len() - j,
    {
        let mut s = String::from_str(out_pre);
        let nm = port_name_exec(&outs[j]);
        append_str(&mut s, nm.as_str());
        append_str(&mut s, out_post);
        let ghost before = r@;
        r.push(s);
        proof {
            assert(views(r@) =~= views(before).push(s@));
        }
        j = j + 1;
    }
    assert(d.take(d.len() as int) =~= d);
    if r.len() == 0 {
        let v = vec![String::from_str(none)];
        assert(views(v@) =~= seq![none@]);
        v
    } else {
        r
    }
}

} // verus!

verus! {

// ------------------------------------------------------------------
// Executable export: nets and components
// ------------------------------------------------------------------

/// Adds a wire name unless already present (see `add_wire`).
fn add_wire_exec(w: &mut Vec<String>, x: &String)
    ensures
        views(final(w)@) == add_wire(views(old(w)@), x@),
{
    let mut i: usize = 0;
    while i < w.len()
        invariant
            i <= w.len(),
            w@ == old(w)@,
            forall|j: int| 0 <= j < i ==> (#[trigger] views(w@)[j]) != x@,
        decreases w.len() - i,
    {
        if crate::graph::str_eq(w[i].as_str(), x.as_str()) {
            assert(views(w@)[i as int] == x@);
            return;
        }
        i = i + 1;
    }
    let ghost before = w@;
    w.push(x.clone());
    assert(views(w@) =~= views(before).push(x@));
}

/// Walks a net's sinks (see `sink_pass`).
fn sink_pass_exec(code: &mut String, m: &mut Vec<(PortEndpoint, String)>, sinks: &Vec<PortEndpoint>, src: &String, verilog: bool)
    ensures
        (final(code)@, assoc(final(m)@)) == sink_pass(old(code)@, assoc(old(m)@), sinks@, src@, verilog, sinks@.len() as int),
{
    let mut k: usize = 0;
    while k < sinks.len()
        invariant
            k <= sinks.len(),
            (code@, assoc(m@)) == sink_pass(old(code)@, assoc(old(m)@), sinks@, src@, verilog, k as int),
        decreases sinks.len() - k,
    {
        let s = sinks[k];
        let ghost before = m@;
        match wire_get(m, s) {
            Some(w) => {
                if verilog {
                    append_str(code, "    assign ");
                    append_str(code, w.as_str());
                    append_str(code, " = ");
                    append_str(code, src.as_str());
                    append_str(code, ";\n");
                } else {
                    m.push((s, w));
                    assert(m@.drop_last() =~= before);
                }
            },
            None => {
                m.push((s, src.clone()));
                assert(m@.drop_last() =~= before);
            },
        }
        k = k + 1;
    }
}

/// Walks the nets in order (see `net_pass`).
fn net_pass_exec(
    code: &mut String,
    m: &mut Vec<(PortEndpoint, String)>,
    wires: &mut Vec<String>,
    circuit: &Circuit,
    verilog: bool,
)
    ensures
        (final(code)@, assoc(final(m)@), views(final(wires)@)) == net_pass(
            old(code)@,
            assoc(old(m)@),
            views(old(wires)@),
            circuit.net_seq(),
            verilog,
            circuit.net_seq().len() as int,
        ),
{
    let keys = net_slots_keys(&circuit.nets);
    let ghost ns = circuit.net_seq();
    let mut k: usize = 0;
    while k < keys.len()
        invariant
            k <= keys.len(),
            ns == circuit.net_seq(),
            keys@ == slot_keys(ns),
            keys@.no_duplicates(),
            forall|j: int| 0 <= j < keys@.len() ==> crate::graph::valid_key(#[trigger] keys@[j]),
            (code@, assoc(m@), views(wires@)) == net_pass(old(code)@, assoc(old(m)@), views(old(wires)@), ns, verilog, k as int),
        decreases keys.len() - k,
    {
        proof {
            assert(slot_keys(ns)[k as int] == keys@[k as int]);
            crate::slots::lemma_slot_get_at(ns, k as int);
        }
        let net = match net_slots_get(&circuit.nets, keys[k]) {
            Some(n) => n,
            None => {
                proof { assert(false); }
                return;
            },
        };
        let nn = match &net.label {
            Some(l) => sanitize_identifier(l.as_str()),
            None => {
                let mut s = String::from_str(if verilog { "wire_" } else { "sig_" });
                let d = net_debug_string(keys[k]);
                append_str(&mut s, d.as_str());
                s
            },
        };
        let src = match wire_get(m, net.source) {
            Some(w) => w,
            None => {
                add_wire_exec(wires, &nn);
                nn
            },
        };
        let ghost before = m@;
        m.push((net.source, src.clone()));
        assert(m@.drop_last() =~= before);
        sink_pass_exec(code, m, &net.sinks, &src, verilog);
        k = k + 1;
    }
    assert(keys@.len() == ns.len());
}

/// The wire feeding an input port, or the default (see `in_wire`).
fn in_wire_exec(m: &Vec<(PortEndpoint, String)>, id: ComponentId, p: usize, dflt: &str) -> (r: String)
    ensures
        r@ == in_wire(assoc(m@), id@, p as int, dflt@),
{
    let ep = PortEndpoint { component_id: id, is_output: false, port_index: p };
    proof {
        crate::graph::lemma_id_of(id@, id);
        assert(ep == endpoint(id@, false, p as int));
    }
    match wire_get(m, ep) {
        Some(w) => w,
        None => String::from_str(dflt),
    }
}

/// The wire driven by an output port, or an open name (see `out_wire`).
fn out_wire_exec(m: &Vec<(PortEndpoint, String)>, id: ComponentId, p: usize, prefix: &str) -> (r: String)
    ensures
        r@ == out_wire(assoc(m@), id@, p as int, prefix@),
{
    let ep = PortEndpoint { component_id: id, is_output: true, port_index: p };
    proof {
        crate::graph::lemma_id_of(id@, id);
        assert(ep == endpoint(id@, true, p as int));
    }
    match wire_get(m, ep) {
        Some(w) => w,
        None => {
            let mut s = String::from_str(prefix);
            let sid = id_suffix(id);
            append_str(&mut s, sid.as_str());
            append_str(&mut s, "_");
            append_decimal(&mut s, p as u64);
            s
        },
    }
}

fn v_in_exec(m: &Vec<(PortEndpoint, String)>, id: ComponentId, p: usize) -> (r: String)
    ensures
        r@ == v_in(assoc(m@), id@, p as int),
{
    in_wire_exec(m, id, p, "1'b0")
}

fn v_out_exec(m: &Vec<(PortEndpoint, String)>, id: ComponentId, p: usize) -> (r: String)
    ensures
        r@ == v_out(assoc(m@), id@, p as int),
{
    out_wire_exec(m, id, p, "open_out_")
}

fn v_braced_exec(m: &Vec<(PortEndpoint, String)>, id: ComponentId, hi: usize) -> (r: String)
    ensures
        r@ == v_braced(assoc(m@), id@, hi as int),
    decreases hi,
{
    if hi == 0 {
        v_out_exec(m, id, 0)
    } else {
        let mut s = v_out_exec(m, id, hi);
        append_str(&mut s, ", ");
        let rest = v_braced_exec(m, id, hi - 1);
        append_str(&mut s, rest.as_str());
        s
    }
}

fn v_ins_down_exec(m: &Vec<(PortEndpoint, String)>, id: ComponentId, from: usize, to: usize) -> (r: String)
    ensures
        r@ == v_ins_down(assoc(m@), id@, from as int, to as int),
    decreases from - to,
{
    if from <= to {
        v_in_exec(m, id, to)
    } else {
        let mut s = v_in_exec(m, id, from);
        append_str(&mut s, ", ");
        let rest = v_ins_down_exec(m, id, from - 1, to);
        append_str(&mut s, rest.as_str());
        s
    }
}

fn gate2_exec(code: &mut String, pre: &str, m: &Vec<(PortEndpoint, String)>, id: ComponentId)
    ensures
        final(code)@ == old(code)@ + gate2_line(pre@, assoc(m@), id@),
{
    append_str(code, pre);
    let sid = id_suffix(id);
    append_str(code, sid.as_str());
    append_str(code, " (");
    let o = v_out_exec(m, id, 0);
    append_str(code, o.as_str());
    append_str(code, ", ");
    let a = v_in_exec(m, id, 0);
    append_str(code, a.as_str());
    append_str(code, ", ");
    let b = v_in_exec(m, id, 1);
    append_str(code, b.as_str());
    append_str(code, ");\n");
    assert(code@ =~= old(code)@ + gate2_line(pre@, assoc(m@), id@));
}

/// `    assign {<outs hi..0>} = <a> <op> <b>[ <op> <c>];` for the small
/// arithmetic blocks.
fn arith_exec(code: &mut String, m: &Vec<(PortEndpoint, String)>, id: ComponentId, op: &str, three: bool)
    ensures
        final(code)@ == old(code)@ + "    assign {"@ + v_braced(assoc(m@), id@, 1) + "} = "@ + v_in(assoc(m@), id@, 0) + op@
            + v_in(assoc(m@), id@, 1) + (if three { op@ + v_in(assoc(m@), id@, 2) } else { Seq::empty() }) + ";\n"@,
{
    append_str(code, "    assign {");
    let o = v_braced_exec(m, id, 1);
    append_str(code, o.as_str());
    append_str(code, "} = ");
    let a = v_in_exec(m, id, 0);
    append_str(code, a.as_str());
    append_str(code, op);
    let b = v_in_exec(m, id, 1);
    append_str(code, b.as_str());
    if three {
        append_str(code, op);
        let c = v_in_exec(m, id, 2);
        append_str(code, c.as_str());
    }
    append_str(code, ";\n");
    assert(code@ =~= old(code)@ + "    assign {"@ + v_braced(assoc(m@), id@, 1) + "} = "@ + v_in(assoc(m@), id@, 0) + op@
        + v_in(assoc(m@), id@, 1) + (if three { op@ + v_in(assoc(m@), id@, 2) } else { Seq::empty() }) + ";\n"@);
}

} // verus!

verus! {

/// The connections of a subcircuit instance (see `instance_conns`).
fn instance_conns_exec(m: &Vec<(PortEndpoint, String)>, id: ComponentId, n_in: usize, n_out: usize) -> (r: Vec<String>)
    ensures
        views(r@) == instance_conns(assoc(m@), id@, n_in as nat, n_out as nat),
{
    let ghost d = instance_conns(assoc(m@), id@, n_in as nat, n_out as nat);
    let mut r: Vec<String> = Vec::new();
    let mut i: usize = 0;
    while i < n_in
        invariant
            i <= n_in,
            d == instance_conns(assoc(m@), id@, n_in as nat, n_out as nat),
            views(r@) =~= d.take(i as int),
        decreases n_in - i,
    {
        let mut s = String::from_str("        .in_");
        append_decimal(&mut s, i as u64);
        append_str(&mut s, "(");
        let w = v_in_exec(m, id, i);
        append_str(&mut s, w.as_str());
        append_str(&mut s, ")");
        let ghost before = r@;
        r.push(s);
        proof {
            assert(views(r@) =~= views(before).push(s@));
        }
        i = i + 1;
    }
    let mut j: usize = 0;
    while j < n_out
        invariant
            j <= n_out,
            d == instance_conns(assoc(m@), id@, n_in as nat, n_out as nat),
            views(r@) =~= d.take(n_in + j),
        decreases n_out - j,
    {
        let mut s = String::from_str("        .out_");
        append_decimal(&mut s, j as u64);
        append_str(&mut s, "(");
        let w = v_out_exec(m, id, j);
        append_str(&mut s, w.as_str());
        append_str(&mut s, ")");
        let ghost before = r@;
        r.push(s);
        proof {
            assert(views(r@) =~= views(before).push(s@));
        }
        j = j + 1;
    }
    assert(d.take((n_in + n_out) as int) =~= d);
    r
}

fn not_exec(code: &mut String, m: &Vec<(PortEndpoint, String)>, id: ComponentId)
    ensures
        final(code)@ == old(code)@ + "    not  gate_not_"@ + spec_id_suffix(id@) + " ("@ + v_out(assoc(m@), id@, 0) + ", "@
            + v_in(assoc(m@), id@, 0) + ");\n"@,
{
    append_str(code, "    not  gate_not_");
    let sid = id_suffix(id);
    append_str(code, sid.as_str());
    append_str(code, " (");
    let o = v_out_exec(m, id, 0);
    append_str(code, o.as_str());
    append_str(code, ", ");
    let a = v_in_exec(m, id, 0);
    append_str(code, a.as_str());
    append_str(code, ");\n");
    assert(code@ =~= old(code)@ + "    not  gate_not_"@ + spec_id_suffix(id@) + " ("@ + v_out(assoc(m@), id@, 0) + ", "@
        + v_in(assoc(m@), id@, 0) + ");\n"@);
}

fn adder4_exec(code: &mut String, m: &Vec<(PortEndpoint, String)>, id: ComponentId)
    ensures
        final(code)@ == old(code)@ + "    assign {"@ + v_braced(assoc(m@), id@, 4) + "} = {"@ + v_ins_down(assoc(m@), id@, 3, 0)
            + "} + {"@ + v_ins_down(assoc(m@), id@, 7, 4) + "} + "@ + v_in(assoc(m@), id@, 8) + ";\n"@,
{
    append_str(code, "    assign {");
    let o = v_braced_exec(m, id, 4);
    append_str(code, o.as_str());
    append_str(code, "} = {");
    let a = v_ins_down_exec(m, id, 3, 0);
    append_str(code, a.as_str());
    append_str(code, "} + {");
    let b = v_ins_down_exec(m, id, 7, 4);
    append_str(code, b.as_str());
    append_str(code, "} + ");
    let c = v_in_exec(m, id, 8);
    append_str(code, c.as_str());
    append_str(code, ";\n");
    assert(code@ =~= old(code)@ + "    assign {"@ + v_braced(assoc(m@), id@, 4) + "} = {"@ + v_ins_down(assoc(m@), id@, 3, 0)
        + "} + {"@ + v_ins_down(assoc(m@), id@, 7, 4) + "} + "@ + v_in(assoc(m@), id@, 8) + ";\n"@);
}

fn mux2_exec(code: &mut String, m: &Vec<(PortEndpoint, String)>, id: ComponentId)
    ensures
        final(code)@ == old(code)@ + "    assign "@ + v_out(assoc(m@), id@, 0) + " = "@ + v_in(assoc(m@), id@, 2) + " ? "@
            + v_in(assoc(m@), id@, 1) + " : "@ + v_in(assoc(m@), id@, 0) + ";\n"@,
{
    append_str(code, "    assign ");
    let o = v_out_exec(m, id, 0);
    append_str(code, o.as_str());
    append_str(code, " = ");
    let s = v_in_exec(m, id, 2);
    append_str(code, s.as_str());
    append_str(code, " ? ");
    let b = v_in_exec(m, id, 1);
    append_str(code, b.as_str());
    append_str(code, " : ");
    let a = v_in_exec(m, id, 0);
    append_str(code, a.as_str());
    append_str(code, ";\n");
    assert(code@ =~= old(code)@ + "    assign "@ + v_out(assoc(m@), id@, 0) + " = "@ + v_in(assoc(m@), id@, 2) + " ? "@
        + v_in(assoc(m@), id@, 1) + " : "@ + v_in(assoc(m@), id@, 0) + ";\n"@);
}

/// The Verilog text of a D flip-flop.
pub open spec fn dff_text(m: Map<PortEndpoint, Seq<char>>, id: u64) -> Seq<char> {
    let sid = spec_id_suffix(id);
    "    reg reg_"@ + sid + " = 0;\n    always @(posedge "@ + v_in(m, id, 1) + ") reg_"@ + sid + " <= "@
        + v_in(m, id, 0) + ";\n    assign "@ + v_out(m, id, 0) + " = reg_"@ + sid + ";\n    assign "@ + v_out(m, id, 1)
        + " = ~reg_"@ + sid + ";\n"@
}

fn dff_exec(code: &mut String, m: &Vec<(PortEndpoint, String)>, id: ComponentId)
    ensures
        final(code)@ == old(code)@ + dff_text(assoc(m@), id@),
{
    let sid = id_suffix(id);
    append_str(code, "    reg reg_");
    append_str(code, sid.as_str());
    append_str(code, " = 0;\n    always @(posedge ");
    let clk = v_in_exec(m, id, 1);
    append_str(code, clk.as_str());
    append_str(code, ") reg_");
    append_str(code, sid.as_str());
    append_str(code, " <= ");
    let d = v_in_exec(m, id, 0);
    append_str(code, d.as_str());
    append_str(code, ";\n    assign ");
    let q = v_out_exec(m, id, 0);
    append_str(code, q.as_str());
    append_str(code, " = reg_");
    append_str(code, sid.as_str());
    append_str(code, ";\n    assign ");
    let nq = v_out_exec(m, id, 1);
    append_str(code, nq.as_str());
    append_str(code, " = ~reg_");
    append_str(code, sid.as_str());
    append_str(code, ";\n");
    assert(code@ =~= old(code)@ + dff_text(assoc(m@), id@));
}

/// The Verilog text of a subcircuit instance.
pub open spec fn instance_text(m: Map<PortEndpoint, Seq<char>>, id: u64, name: Seq<char>, n_in: nat, n_out: nat) -> Seq<char> {
    let clean = spec_sanitize(name);
    "    "@ + clean + " inst_"@ + clean + "_"@ + spec_id_suffix(id) + " (\n"@ + join(instance_conns(m, id, n_in, n_out), ",\n"@)
        + "\n    );\n"@
}

fn instance_exec(code: &mut String, m: &Vec<(PortEndpoint, String)>, id: ComponentId, name: &String, n_in: usize, n_out: usize)
    ensures
        final(code)@ == old(code)@ + instance_text(assoc(m@), id@, name@, n_in as nat, n_out as nat),
{
    let clean = sanitize_identifier(name.as_str());
    let sid = id_suffix(id);
    append_str(code, "    ");
    append_str(code, clean.as_str());
    append_str(code, " inst_");
    append_str(code, clean.as_str());
    append_str(code, "_");
    append_str(code, sid.as_str());
    append_str(code, " (\n");
    let conns = instance_conns_exec(m, id, n_in, n_out);
    crate::text::append_joined(code, &conns, ",\n");
    append_str(code, "\n    );\n");
    assert(code@ =~= old(code)@ + instance_text(assoc(m@), id@, name@, n_in as nat, n_out as nat));
}

/// Appends the Verilog text for one component (see `verilog_line`).
#[verifier::spinoff_prover]
#[verifier::rlimit(60)]
fn verilog_line_exec(code: &mut String, m: &Vec<(PortEndpoint, String)>, id: ComponentId, node: &crate::graph::ComponentNode)
    ensures
        final(code)@ == old(code)@ + verilog_line(assoc(m@), (id@, node@)),
{
    match &node.kind {
        GateKind::And => gate2_exec(code, "    and  gate_and_", m, id),
        GateKind::Or => gate2_exec(code, "    or   gate_or_", m, id),
        GateKind::Not => not_exec(code, m, id),
        GateKind::Nand => gate2_exec(code, "    nand gate_nand_", m, id),
        GateKind::Nor => gate2_exec(code, "    nor  gate_nor_", m, id),
        GateKind::Xor => gate2_exec(code, "    xor  gate_xor_", m, id),
        GateKind::Xnor => gate2_exec(code, "    xnor gate_xnor_", m, id),
        GateKind::HalfAdder => arith_exec(code, m, id, " + ", false),
        GateKind::FullAdder => arith_exec(code, m, id, " + ", true),
        GateKind::HalfSubtractor => arith_exec(code, m, id, " - ", false),
        GateKind::FullSubtractor => arith_exec(code, m, id, " - ", true),
        GateKind::RippleCarryAdder4 | GateKind::CarryLookaheadAdder4 => adder4_exec(code, m, id),
        GateKind::Mux2 => mux2_exec(code, m, id),
        GateKind::DFlipFlop => dff_exec(code, m, id),
        GateKind::SubcircuitInstance(name) => {
            instance_exec(code, m, id, name, node.input_signals.len(), node.output_signals.len())
        },
        _ => {
            assert(old(code)@ + verilog_line(assoc(m@), (id@, node@)) =~= old(code)@);
        },
    }
}

fn vhdl2_exec(code: &mut String, m: &Vec<(PortEndpoint, String)>, id: ComponentId, pre: &str, mid: &str, post: &str)
    ensures
        final(code)@ == old(code)@ + vhdl2(assoc(m@), id@, pre@, mid@, post@),
{
    append_str(code, "    ");
    let o = out_wire_exec(m, id, 0, "open_");
    append_str(code, o.as_str());
    append_str(code, " <= ");
    append_str(code, pre);
    let a = in_wire_exec(m, id, 0, "'0'");
    append_str(code, a.as_str());
    append_str(code, mid);
    let b = in_wire_exec(m, id, 1, "'0'");
    append_str(code, b.as_str());
    append_str(code, post);
    append_str(code, ";\n");
    assert(code@ =~= old(code)@ + vhdl2(assoc(m@), id@, pre@, mid@, post@));
}

/// Appends the VHDL text for one component (see `vhdl_line`).
fn vhdl_line_exec(code: &mut String, m: &Vec<(PortEndpoint, String)>, id: ComponentId, node: &crate::graph::ComponentNode)
    ensures
        final(code)@ == old(code)@ + vhdl_line(assoc(m@), (id@, node@)),
{
    let ghost mm = assoc(m@);
    match &node.kind {
        GateKind::And => vhdl2_exec(code, m, id, "", " and ", ""),
        GateKind::Or => vhdl2_exec(code, m, id, "", " or ", ""),
        GateKind::Not => {
            append_str(code, "    ");
            let o = out_wire_exec(m, id, 0, "open_");
            append_str(code, o.as_str());
            append_str(code, " <= not ");
            let a = in_wire_exec(m, id, 0, "'0'");
            append_str(code, a.as_str());
            append_str(code, ";\n");
        },
        GateKind::Nand => vhdl2_exec(code, m, id, "not (", " and ", ")"),
        GateKind::Nor => vhdl2_exec(code, m, id, "not (", " or ", ")"),
        GateKind::Xor => vhdl2_exec(code, m, id, "", " xor ", ""),
        GateKind::Xnor => vhdl2_exec(code, m, id, "not (", " xor ", ")"),
        GateKind::Mux2 => {
            append_str(code, "    ");
            let o = out_wire_exec(m, id, 0, "open_");
            append_str(code, o.as_str());
            append_str(code, " <= ");
            let b = in_wire_exec(m, id, 1, "'0'");
            append_str(code, b.as_str());
            append_str(code, " when ");
            let s = in_wire_exec(m, id, 2, "'0'");
            append_str(code, s.as_str());
            append_str(code, " = '1' else ");
            let a = in_wire_exec(m, id, 0, "'0'");
            append_str(code, a.as_str());
            append_str(code, ";\n");
        },
        _ => {},
    }
    assert(code@ =~= old(code)@ + vhdl_line(mm, (id@, node@)));
}

/// Appends the instantiation text of every component (see `comp_pass`).
fn comp_pass_exec(code: &mut String, m: &Vec<(PortEndpoint, String)>, circuit: &Circuit, verilog: bool)
    ensures
        final(code)@ == old(code)@ + comp_pass(assoc(m@), circuit.comps(), verilog, circuit.comps().len() as int),
{
    let keys = component_slots_keys(&circuit.components);
    let ghost cs = circuit.comps();
    proof { crate::graph::lemma_keys_wf(cs, keys@); }
    let mut k: usize = 0;
    while k < keys.len()
        invariant
            k <= keys.len(),
            cs == circuit.comps(),
            keys@ == slot_keys(cs),
            slots_wf(cs),
            code@ == old(code)@ + comp_pass(assoc(m@), cs, verilog, k as int),
        decreases keys.len() - k,
    {
        proof {
            assert(slot_keys(cs)[k as int] == keys@[k as int]);
            crate::slots::lemma_slot_get_at(cs, k as int);
        }
        let id = ComponentId::from_key(keys[k]);
        match component_slots_get(&circuit.components, keys[k]) {
            Some(node) => {
                let ghost before = code@;
                if verilog {
                    verilog_line_exec(code, m, id, node);
                } else {
                    vhdl_line_exec(code, m, id, node);
                }
                assert(code@ =~= old(code)@ + comp_pass(assoc(m@), cs, verilog, k + 1));
            },
            None => {},
        }
        k = k + 1;
    }
    assert(keys@.len() == cs.len());
}

} // verus!

verus! {

/// Appends each name between a prefix and a suffix (see `wire_lines`).
fn wire_lines_exec(code: &mut String, ws: &Vec<String>, pre: &str, post: &str)
    ensures
        final(code)@ == old(code)@ + wire_lines(views(ws@), pre@, post@),
{
    let mut i: usize = 0;
    while i < ws.len()
        invariant
            i <= ws.len(),
            code@ == old(code)@ + wire_lines(views(ws@).take(i as int), pre@, post@),
        decreases ws.len() - i,
    {
        append_str(code, pre);
        append_str(code, ws[i].as_str());
        append_str(code, post);
        proof {
            assert(views(ws@).take(i + 1).drop_last() =~= views(ws@).take(i as int));
            assert(views(ws@).take(i + 1).last() == ws@[i as int]@);
        }
        i = i + 1;
    }
    assert(views(ws@).take(ws.len() as int) =~= views(ws@));
}

/// Writes circuits as Verilog or VHDL.
pub struct HdlExporter;

impl HdlExporter {
    /// The HDL input ports (switches `sw`, clocks `clk`) and output ports
    /// (LEDs `led`), each ordered by how their ids print.
    pub fn detect_circuit_io(circuit: &Circuit) -> (r: (Vec<(ComponentId, String)>, Vec<(ComponentId, String)>))
        ensures
            crate::verify::io_view(r.0@) == hdl_ports(circuit.comps(), false),
            crate::verify::io_view(r.1@) == hdl_ports(circuit.comps(), true),
    {
        let ins = scan_hdl_exec(circuit, false);
        let outs = scan_hdl_exec(circuit, true);
        (sort_ports_exec(ins), sort_ports_exec(outs))
    }

    /// Verilog source for the circuit, with a module per registered
    /// subcircuit (see `spec_verilog`).
    pub fn to_verilog(circuit: &Circuit, module_name: &str) -> (r: String)
        ensures
            r@ == spec_verilog(*circuit, module_name@),
        decreases circuit,
    {
        let clean = sanitize_identifier(module_name);
        let mut code = String::new();
        append_str(&mut code, "// =============================================================================\n");
        append_str(&mut code, "// Logic Lab HDL Export: ");
        append_str(&mut code, clean.as_str());
        append_str(&mut code, "\n");
        append_str(&mut code, "// Generated automatically by Logic Lab\n");
        append_str(&mut code, "// =============================================================================\n\n");
        let ghost head = code@;
        proof {
            reveal_strlit("// =============================================================================\n");
            reveal_strlit("// =============================================================================\n\n");
            reveal_strlit("//");
            reveal_strlit(" =============================================================================");
            reveal_strlit("\n");
            reveal_strlit("\n\n");
            assert(head =~= rule("//"@) + "\n"@ + "// Logic Lab HDL Export: "@ + clean@ + "\n"@
                + "// Generated automatically by Logic Lab\n"@ + rule("//"@) + "\n\n"@);
        }
        let mut i: usize = 0;
        while i < circuit.subcircuits.len()
            invariant
                i <= circuit.subcircuits.len(),
                code@ == head + sub_modules(*circuit, i as int),
            decreases circuit.subcircuits.len() - i,
        {
            proof {
                assert(decreases_to!(*circuit => circuit.subcircuits));
                assert(decreases_to!(circuit.subcircuits => circuit.subcircuits@));
                assert(decreases_to!(circuit.subcircuits@ => circuit.subcircuits@[i as int]));
                assert(decreases_to!(circuit.subcircuits@[i as int] => circuit.subcircuits@[i as int].1));
                assert(decreases_to!(circuit.subcircuits@[i as int].1 => circuit.subcircuits@[i as int].1.circuit));
            }
            let sub = Self::to_verilog(&circuit.subcircuits[i].1.circuit, circuit.subcircuits[i].0.as_str());
            append_str(&mut code, sub.as_str());
            append_str(&mut code, "\n");
            i = i + 1;
        }
        let (inputs, outputs) = Self::detect_circuit_io(circuit);
        append_str(&mut code, "module ");
        append_str(&mut code, clean.as_str());
        append_str(&mut code, " (\n");
        let decls = port_decls_exec(&inputs, &outputs, "    input  wire ", "    output wire ", "", "", "    // No external ports connected");
        crate::text::append_joined(&mut code, &decls, ",\n");
        append_str(&mut code, "\n);\n\n");
        let mut m: Vec<(PortEndpoint, String)> = Vec::new();
        map_ports_exec(&mut m, &inputs, true);
        map_ports_exec(&mut m, &outputs, false);
        proof {
            assert(assoc(Seq::<(PortEndpoint, String)>::empty()) == Map::<PortEndpoint, Seq<char>>::empty());
        }
        let mut assigns = String::new();
        let mut wires: Vec<String> = Vec::new();
        proof {
            assert(views(wires@) =~= Seq::<Seq<char>>::empty());
        }
        net_pass_exec(&mut assigns, &mut m, &mut wires, circuit, true);
        append_str(&mut code, assigns.as_str());
        if wires.len() > 0 {
            append_str(&mut code, "    // Internal signals\n");
            let sorted = sort_strings(&wires);
            wire_lines_exec(&mut code, &sorted, "    wire ", ";\n");
            append_str(&mut code, "\n");
        }
        append_str(&mut code, "    // Component Instantiations\n");
        comp_pass_exec(&mut code, &m, circuit, true);
        append_str(&mut code, "\nendmodule\n");
        proof {
            let comps = component_slots(circuit.components);
            let ins = hdl_ports(comps, false);
            let outs = hdl_ports(comps, true);
            let decl_spec = port_decls(ins, outs, "    input  wire "@, "    output wire "@, ""@, "    // No external ports connected"@);
            assert(views(decls@) =~= decl_spec);
        }
        assert(code@ =~= spec_verilog(*circuit, module_name@));
        code
    }

    /// VHDL source for the circuit (see `spec_vhdl`).
    pub fn to_vhdl(circuit: &Circuit, entity_name: &str) -> (r: String)
        ensures
            r@ == spec_vhdl(*circuit, entity_name@),
    {
        let clean = sanitize_identifier(entity_name);
        let mut code = vhdl_head_exec(&clean);
        let (inputs, outputs) = Self::detect_circuit_io(circuit);
        vhdl_entity_exec(&mut code, &clean, &inputs, &outputs);
        let mut m: Vec<(PortEndpoint, String)> = Vec::new();
        map_ports_exec(&mut m, &inputs, true);
        map_ports_exec(&mut m, &outputs, false);
        proof {
            assert(assoc(Seq::<(PortEndpoint, String)>::empty()) == Map::<PortEndpoint, Seq<char>>::empty());
        }
        let mut unused = String::new();
        let mut wires: Vec<String> = Vec::new();
        proof {
            assert(views(wires@) =~= Seq::<Seq<char>>::empty());
        }
        net_pass_exec(&mut unused, &mut m, &mut wires, circuit, false);
        let sorted = sort_strings(&wires);
        wire_lines_exec(&mut code, &sorted, "    signal ", " : STD_LOGIC := '0';\n");
        append_str(&mut code, "begin\n");
        comp_pass_exec(&mut code, &m, circuit, false);
        append_str(&mut code, "end Structural;\n");
        assert(code@ =~= spec_vhdl(*circuit, entity_name@));
        code
    }
}

fn vhdl_head_exec(clean: &String) -> (r: String)
    ensures
        r@ == vhdl_head(clean@),
{
    let mut code = String::new();
    append_str(&mut code, "-- =============================================================================\n");
    append_str(&mut code, "-- Logic Lab VHDL Export: ");
    append_str(&mut code, clean.as_str());
    append_str(&mut code, "\n");
    append_str(&mut code, "-- Generated automatically by Logic Lab\n");
    append_str(&mut code, "-- =============================================================================\n\n");
    append_str(&mut code, "library IEEE;\n");
    append_str(&mut code, "use IEEE.STD_LOGIC_1164.ALL;\n");
    append_str(&mut code, "use IEEE.NUMERIC_STD.ALL;\n\n");
    proof {
        reveal_strlit("-- =============================================================================\n");
        reveal_strlit("-- =============================================================================\n\n");
        reveal_strlit("--");
        reveal_strlit(" =============================================================================");
        reveal_strlit("\n");
        reveal_strlit("\n\n");
    }
    assert(code@ =~= vhdl_head(clean@));
    code
}

fn vhdl_entity_exec(code: &mut String, clean: &String, inputs: &Vec<(ComponentId, String)>, outputs: &Vec<(ComponentId, String)>)
    ensures
        final(code)@ == old(code)@ + vhdl_entity(clean@, crate::verify::io_view(inputs@), crate::verify::io_view(outputs@)),
{
    append_str(code, "entity ");
    append_str(code, clean.as_str());
    append_str(code, " is\n");
    append_str(code, "    Port (\n");
    let decls = port_decls_exec(inputs, outputs, "        ", "        ", " : in  STD_LOGIC", " : out STD_LOGIC", "        dummy_port : in STD_LOGIC");
    assert(views(decls@) =~= port_decls_vhdl(crate::verify::io_view(inputs@), crate::verify::io_view(outputs@)));
    crate::text::append_joined(code, &decls, ";\n");
    append_str(code, "\n    );\n");
    append_str(code, "end ");
    append_str(code, clean.as_str());
    append_str(code, ";\n\n");
    append_str(code, "architecture Structural of ");
    append_str(code, clean.as_str());
    append_str(code, " is\n");
    assert(code@ =~= old(code)@ + vhdl_entity(clean@, crate::verify::io_view(inputs@), crate::verify::io_view(outputs@)));
}

} // verus!
