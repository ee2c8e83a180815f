use vstd::prelude::*;
use vstd::string::is_ascii;
use vstd::utf8::is_ascii_chars;
use crate::activation::{Activation, ActivationType};
use crate::cesure::Cesure;
use crate::gate::{FeedforwardGate, layers_chain};
use crate::matrix::Matrix;
use crate::text_format::{
    digits, free_of, is_canonical_usize, join, lemma_digits, lemma_join_free, lemma_split_join, parse_usize, split,
    split_ascii, usize_text, value_of, all_free_of,
};

verus! {

/// A matrix in text form: its shape and one token per element, row-major.
pub struct MatrixText {
    pub rows: usize,
    pub cols: usize,
    pub cells: Vec<String>,
}

/// A gate in text form.
pub struct GateText {
    pub input_dimension: usize,
    pub output_dimension: usize,
    pub activation: ActivationType,
    pub layers: Vec<MatrixText>,
}

/// A recurrent network in text form: its dimensions and both gates.
pub struct CesureText {
    pub infos_dimension: usize,
    pub context_dimension: usize,
    pub output_dimension: usize,
    pub output_gate: GateText,
    pub memory_gate: GateText,
}

/// Rows, columns and element tokens.
pub type MatrixV = (nat, nat, Seq<Seq<char>>);
/// Input and output dimensions, activation and layers.
pub type GateV = (nat, nat, ActivationType, Seq<MatrixV>);
/// Descriptor, context and output dimensions, output gate and memory gate.
pub type CesureV = (nat, nat, nat, GateV, GateV);

impl View for MatrixText {
    type V = MatrixV;

    open spec fn view(&self) -> MatrixV {
        (self.rows as nat, self.cols as nat, self.cells@.map_values(|c: String| c@))
    }
}

impl View for GateText {
    type V = GateV;

    open spec fn view(&self) -> GateV {
        (self.input_dimension as nat, self.output_dimension as nat, self.activation, self.layers@.map_values(|m: MatrixText| m@))
    }
}

impl View for CesureText {
    type V = CesureV;

    open spec fn view(&self) -> CesureV {
        (self.infos_dimension as nat, self.context_dimension as nat, self.output_dimension as nat, self.output_gate@, self.memory_gate@)
    }
}

/// An element token: non-empty ASCII text without space or line break.
pub open spec fn is_token(t: Seq<char>) -> bool {
    &&& t.len() > 0
    &&& is_ascii_chars(t)
    &&& free_of(t, ' ')
    &&& free_of(t, '\n')
}

pub open spec fn matrix_valid(m: MatrixV) -> bool {
    &&& 0 < m.0 <= usize::MAX
    &&& 0 < m.1 <= usize::MAX
    &&& m.2.len() == m.0 * m.1
    &&& forall|i: int| 0 <= i < m.2.len() ==> is_token(#[trigger] m.2[i])
}

pub open spec fn gate_valid(g: GateV) -> bool {
    &&& g.0 <= usize::MAX
    &&& g.1 <= usize::MAX
    &&& 1 <= g.3.len() <= usize::MAX
    &&& forall|i: int| 0 <= i < g.3.len() ==> matrix_valid(#[trigger] g.3[i])
}

pub open spec fn cesure_valid(c: CesureV) -> bool {
    &&& c.0 <= usize::MAX
    &&& c.1 <= usize::MAX
    &&& c.2 <= usize::MAX
    &&& gate_valid(c.3)
    &&& gate_valid(c.4)
}

/// `<rows> <cols> <element> ...`
pub open spec fn matrix_line(m: MatrixV) -> Seq<char> {
    join(seq![digits(m.0), digits(m.1)] + m.2, ' ')
}

/// `<input_dim> <output_dim> <nb_layers> <activation_tag>`
pub open spec fn gate_header(g: GateV) -> Seq<char> {
    join(seq![digits(g.0), digits(g.1), digits(g.3.len()), g.2.tag_spec()], ' ')
}

/// The header line followed by one line per layer.
pub open spec fn gate_lines(g: GateV) -> Seq<Seq<char>> {
    seq![gate_header(g)] + g.3.map_values(|m: MatrixV| matrix_line(m))
}

pub open spec fn gate_text(g: GateV) -> Seq<char> {
    join(gate_lines(g), '\n')
}

/// `<infos_dim> <context_dim> <output_dim>`
pub open spec fn cesure_header(c: CesureV) -> Seq<char> {
    join(seq![digits(c.0), digits(c.1), digits(c.2)], ' ')
}

pub open spec fn output_marker() -> Seq<char> {
    "OUTPUT_GATE"@
}

pub open spec fn memory_marker() -> Seq<char> {
    "MEMORY_GATE"@
}

/// The header, the output-gate marker, the output gate's lines, the
/// memory-gate marker and the memory gate's lines.
pub open spec fn cesure_lines(c: CesureV) -> Seq<Seq<char>> {
    seq![cesure_header(c), output_marker()] + gate_lines(c.3) + seq![memory_marker()] + gate_lines(c.4)
}

pub open spec fn cesure_text(c: CesureV) -> Seq<char> {
    join(cesure_lines(c), '\n')
}

proof fn lemma_join_push(parts: Seq<Seq<char>>, sep: char, x: Seq<char>)
    requires
        parts.len() >= 1,
    ensures
        join(parts.push(x), sep) == join(parts, sep) + seq![sep] + x,
{
    assert(parts.push(x).drop_last() =~= parts);
}

/// Appends `sep` and then `piece`, extending a join by one piece.
fn append_piece(out: &mut String, sep: &str, piece: &str, Ghost(parts): Ghost<Seq<Seq<char>>>, Ghost(c): Ghost<char>)
    requires
        parts.len() >= 1,
        old(out)@ == join(parts, c),
        sep@ == seq![c],
    ensures
        final(out)@ == join(parts.push(piece@), c),
{
    proof {
        lemma_join_push(parts, c, piece@);
    }
    out.append(sep);
    out.append(piece);
    proof {
        assert(final(out)@ =~= join(parts, c) + seq![c] + piece@);
    }
}

impl MatrixText {
    /// The matrix as one line of text.
    pub fn to_line(&self) -> (r: String)
        ensures
            r@ == matrix_line(self@),
    {
        let space = " ";
        proof {
            reveal_strlit(" ");
            assert(space@ =~= seq![' ']);
        }
        let mut out = usize_text(self.rows);
        let ghost first = seq![digits(self.rows as nat)];
        proof {
            assert(join(first, ' ') == digits(self.rows as nat));
        }
        let cols = usize_text(self.cols);
        append_piece(&mut out, space, cols.as_str(), Ghost(first), Ghost(' '));
        let ghost head = seq![digits(self.rows as nat), digits(self.cols as nat)];
        proof {
            assert(first.push(digits(self.cols as nat)) =~= head);
        }
        let mut k: usize = 0;
        while k < self.cells.len()
            invariant
                k <= self.cells@.len(),
                space@ == seq![' '],
                head.len() == 2,
                out@ == join(head + self@.2.subrange(0, k as int), ' '),
            decreases self.cells@.len() - k,
        {
            let ghost before = head + self@.2.subrange(0, k as int);
            append_piece(&mut out, space, self.cells[k].as_str(), Ghost(before), Ghost(' '));
            k = k + 1;
            proof {
                assert(before.push(self.cells@[k - 1]@) =~= head + self@.2.subrange(0, k as int));
            }
        }
        proof {
            assert(self@.2.subrange(0, self.cells@.len() as int) =~= self@.2);
        }
        out
    }
}

fn space_str() -> (r: &'static str)
    ensures
        r@ == seq![' '],
{
    proof {
        reveal_strlit(" ");
    }
    " "
}

fn newline_str() -> (r: &'static str)
    ensures
        r@ == seq!['\n'],
{
    proof {
        reveal_strlit("\n");
    }
    "\n"
}

fn output_marker_str() -> (r: &'static str)
    ensures
        r@ == output_marker(),
{
    "OUTPUT_GATE"
}

fn memory_marker_str() -> (r: &'static str)
    ensures
        r@ == memory_marker(),
{
    "MEMORY_GATE"
}

impl GateText {
    /// The header line of this gate.
    pub fn header_line(&self) -> (r: String)
        ensures
            r@ == gate_header(self@),
    {
        let mut out = usize_text(self.input_dimension);
        let ghost p1 = seq![digits(self.input_dimension as nat)];
        let t2 = usize_text(self.output_dimension);
        append_piece(&mut out, space_str(), t2.as_str(), Ghost(p1), Ghost(' '));
        let ghost p2 = p1.push(t2@);
        let t3 = usize_text(self.layers.len());
        append_piece(&mut out, space_str(), t3.as_str(), Ghost(p2), Ghost(' '));
        let ghost p3 = p2.push(t3@);
        let tag = Activation { act_type: self.activation }.to_string();
        append_piece(&mut out, space_str(), tag.as_str(), Ghost(p3), Ghost(' '));
        proof {
            assert(self@.3.len() == self.layers@.len());
            assert(p3.push(tag@) =~= seq![digits(self@.0), digits(self@.1), digits(self@.3.len()), self@.2.tag_spec()]);
        }
        out
    }

    /// Appends one line per layer to a text holding the lines `parts`.
    fn append_layer_lines(&self, out: &mut String, Ghost(parts): Ghost<Seq<Seq<char>>>)
        requires
            parts.len() >= 1,
            old(out)@ == join(parts, '\n'),
        ensures
            final(out)@ == join(parts + self@.3.map_values(|m: MatrixV| matrix_line(m)), '\n'),
    {
        let ghost lines = self@.3.map_values(|m: MatrixV| matrix_line(m));
        let mut k: usize = 0;
        while k < self.layers.len()
            invariant
                parts.len() >= 1,
                k <= self.layers@.len(),
                lines == self@.3.map_values(|m: MatrixV| matrix_line(m)),
                out@ == join(parts + lines.subrange(0, k as int), '\n'),
            decreases self.layers@.len() - k,
        {
            let line = self.layers[k].to_line();
            let ghost before = parts + lines.subrange(0, k as int);
            append_piece(out, newline_str(), line.as_str(), Ghost(before), Ghost('\n'));
            k = k + 1;
            proof {
                assert(before.push(line@) =~= parts + lines.subrange(0, k as int));
            }
        }
        proof {
            assert(lines.subrange(0, self.layers@.len() as int) =~= lines);
        }
    }

    /// This gate as text: its header line, then one line per layer.
    pub fn to_text(&self) -> (r: String)
        ensures
            r@ == gate_text(self@),
    {
        let mut out = self.header_line();
        let ghost first = seq![gate_header(self@)];
        self.append_layer_lines(&mut out, Ghost(first));
        out
    }
}

impl CesureText {
    /// The network as text: its header line, a marker line, the output
    /// gate, a marker line and the memory gate.
    pub fn to_text(&self) -> (r: String)
        ensures
            r@ == cesure_text(self@),
    {
        let mut out = usize_text(self.infos_dimension);
        let ghost h1 = seq![digits(self.infos_dimension as nat)];
        let t2 = usize_text(self.context_dimension);
        append_piece(&mut out, space_str(), t2.as_str(), Ghost(h1), Ghost(' '));
        let t3 = usize_text(self.output_dimension);
        append_piece(&mut out, space_str(), t3.as_str(), Ghost(h1.push(t2@)), Ghost(' '));
        proof {
            assert(h1.push(t2@).push(t3@) =~= seq![digits(self@.0), digits(self@.1), digits(self@.2)]);
        }
        let ghost l0 = seq![cesure_header(self@)];
        append_piece(&mut out, newline_str(), output_marker_str(), Ghost(l0), Ghost('\n'));
        let ghost l1 = l0.push(output_marker());
        let h = self.output_gate.header_line();
        append_piece(&mut out, newline_str(), h.as_str(), Ghost(l1), Ghost('\n'));
        let ghost l2 = l1.push(h@);
        self.output_gate.append_layer_lines(&mut out, Ghost(l2));
        let ghost l3 = l2 + self@.3.3.map_values(|m: MatrixV| matrix_line(m));
        append_piece(&mut out, newline_str(), memory_marker_str(), Ghost(l3), Ghost('\n'));
        let ghost l4 = l3.push(memory_marker());
        let h2 = self.memory_gate.header_line();
        append_piece(&mut out, newline_str(), h2.as_str(), Ghost(l4), Ghost('\n'));
        let ghost l5 = l4.push(h2@);
        self.memory_gate.append_layer_lines(&mut out, Ghost(l5));
        proof {
            assert(l5 + self@.4.3.map_values(|m: MatrixV| matrix_line(m)) =~= cesure_lines(self@));
        }
        out
    }
}

/// The matrix written on one line, if the line is `<rows> <cols>` followed by
/// exactly `rows * cols` element tokens, both dimensions canonical and positive.
pub open spec fn parse_matrix_line(line: Seq<char>) -> Option<MatrixV> {
    let toks = split(line, ' ');
    if toks.len() >= 2 && is_canonical_usize(toks[0]) && is_canonical_usize(toks[1]) && value_of(toks[0]) > 0
        && value_of(toks[1]) > 0 && toks.len() - 2 == value_of(toks[0]) * value_of(toks[1])
        && (forall|i: int| 2 <= i < toks.len() ==> is_token(#[trigger] toks[i])) {
        Some((value_of(toks[0]), value_of(toks[1]), toks.subrange(2, toks.len() as int)))
    } else {
        None
    }
}

/// The activation named by a tag.
pub open spec fn tag_activation(t: Seq<char>) -> Option<ActivationType> {
    if t == crate::activation::sigmoid_tag() {
        Some(ActivationType::Sigmoid)
    } else if t == crate::activation::tanh_tag() {
        Some(ActivationType::Tanh)
    } else {
        None
    }
}

/// A gate written on `lines`: a header with canonical dimensions, the
/// number of layers and a known tag, then exactly that many matrix lines.
pub open spec fn parse_gate_lines(lines: Seq<Seq<char>>) -> Option<GateV> {
    if lines.len() < 2 {
        None
    } else {
        let h = split(lines[0], ' ');
        if h.len() == 4 && is_canonical_usize(h[0]) && is_canonical_usize(h[1]) && is_canonical_usize(h[2])
            && tag_activation(h[3]) is Some && lines.len() == value_of(h[2]) + 1
            && (forall|i: int| 1 <= i < lines.len() ==> #[trigger] parse_matrix_line(lines[i]) is Some) {
            Some((
                value_of(h[0]),
                value_of(h[1]),
                tag_activation(h[3])->0,
                Seq::new((lines.len() - 1) as nat, |i: int| parse_matrix_line(lines[i + 1])->0),
            ))
        } else {
            None
        }
    }
}

/// A gate written in an ASCII text.
pub open spec fn parse_gate_text(s: Seq<char>) -> Option<GateV> {
    if is_ascii_chars(s) { parse_gate_lines(split(s, '\n')) } else { None }
}

/// Number of layers announced by a gate header line.
pub open spec fn announced_layers(line: Seq<char>) -> nat {
    value_of(split(line, ' ')[2])
}

/// The network written in an ASCII text: a header of three canonical
/// dimensions, the output-gate marker, the output gate (whose header says
/// how many lines it spans), the memory-gate marker, and the memory gate up
/// to the end.
pub open spec fn parse_cesure_text(s: Seq<char>) -> Option<CesureV> {
    let lines = split(s, '\n');
    if !is_ascii_chars(s) || lines.len() < 3 {
        None
    } else {
        let h = split(lines[0], ' ');
        let g = split(lines[2], ' ');
        let n1 = announced_layers(lines[2]) as int;
        if h.len() == 3 && is_canonical_usize(h[0]) && is_canonical_usize(h[1]) && is_canonical_usize(h[2])
            && lines[1] == output_marker() && g.len() == 4 && is_canonical_usize(g[2]) && n1 + 4 <= lines.len()
            && lines[n1 + 3] == memory_marker() {
            match (parse_gate_lines(lines.subrange(2, n1 + 3)), parse_gate_lines(lines.subrange(n1 + 4, lines.len() as int))) {
                (Some(og), Some(mg)) => Some((value_of(h[0]), value_of(h[1]), value_of(h[2]), og, mg)),
                _ => None,
            }
        } else {
            None
        }
    }
}

/// Whether `t` is an element token.
pub fn token_ok(t: &str) -> (r: bool)
    ensures
        r == is_token(t@),
{
    let n = t.unicode_len();
    if n == 0 {
        return false;
    }
    let mut i: usize = 0;
    while i < n
        invariant
            n == t@.len(),
            i <= n,
            forall|j: int| 0 <= j < i ==> '\0' <= #[trigger] t@[j] <= '\u{7f}' && t@[j] != ' ' && t@[j] != '\n',
        decreases n - i,
    {
        let c = t.get_char(i);
        if c > '\u{7f}' || c == ' ' || c == '\n' {
            return false;
        }
        i = i + 1;
    }
    true
}

/// Reads a matrix line; `None` unless the line is as `parse_matrix_line` describes.
pub fn read_matrix_line(line: &str) -> (r: Option<MatrixText>)
    requires
        is_ascii(line),
    ensures
        match r {
            Some(m) => parse_matrix_line(line@) == Some(m@),
            None => parse_matrix_line(line@) is None,
        },
{
    let toks = split_ascii(line, ' ');
    let ghost st = split(line@, ' ');
    if toks.len() < 2 {
        return None;
    }
    let rows = match parse_usize(toks[0]) {
        Some(v) => v,
        None => return None,
    };
    let cols = match parse_usize(toks[1]) {
        Some(v) => v,
        None => return None,
    };
    if rows == 0 || cols == 0 {
        return None;
    }
    let len = match rows.checked_mul(cols) {
        Some(v) => v,
        None => {
            proof {
                assert(st.len() - 2 <= usize::MAX);
            }
            return None;
        }
    };
    if toks.len() - 2 != len {
        return None;
    }
    let mut cells: Vec<String> = Vec::with_capacity(len);
    let mut k: usize = 2;
    while k < toks.len()
        invariant
            toks@.len() == st.len(),
            st == split(line@, ' '),
            forall|j: int| 0 <= j < toks@.len() ==> (#[trigger] toks@[j])@ == st[j],
            is_canonical_usize(st[0]),
            is_canonical_usize(st[1]),
            rows == value_of(st[0]),
            cols == value_of(st[1]),
            rows > 0,
            cols > 0,
            st.len() - 2 == rows * cols,
            2 <= k <= toks@.len(),
            cells@.len() == k - 2,
            forall|j: int| 2 <= j < k ==> is_token(#[trigger] st[j]),
            forall|j: int| 0 <= j < cells@.len() ==> (#[trigger] cells@[j])@ == st[j + 2],
        decreases toks@.len() - k,
    {
        if !token_ok(toks[k]) {
            proof {
                assert(!is_token(st[k as int]));
            }
            return None;
        }
        cells.push(String::from_str(toks[k]));
        k = k + 1;
    }
    let m = MatrixText { rows, cols, cells };
    proof {
        assert(m@.2 =~= st.subrange(2, st.len() as int));
    }
    Some(m)
}

/// The texts of a list of string slices.
pub open spec fn strs_view(v: Seq<&str>) -> Seq<Seq<char>> {
    v.map_values(|t: &str| t@)
}

/// Reads a gate written on `lines[from..to]`.
fn read_gate_lines(lines: &Vec<&str>, from: usize, to: usize) -> (r: Option<GateText>)
    requires
        from <= to <= lines@.len(),
        forall|k: int| 0 <= k < lines@.len() ==> is_ascii(#[trigger] lines@[k]),
    ensures
        match r {
            Some(g) => parse_gate_lines(strs_view(lines@).subrange(from as int, to as int)) == Some(g@),
            None => parse_gate_lines(strs_view(lines@).subrange(from as int, to as int)) is None,
        },
{
    let ghost ls = strs_view(lines@).subrange(from as int, to as int);
    if to - from < 2 {
        return None;
    }
    proof {
        assert(ls[0] == lines@[from as int]@);
    }
    let h = split_ascii(lines[from], ' ');
    let ghost hs = split(ls[0], ' ');
    if h.len() != 4 {
        return None;
    }
    let input_dimension = match parse_usize(h[0]) {
        Some(v) => v,
        None => return None,
    };
    let output_dimension = match parse_usize(h[1]) {
        Some(v) => v,
        None => return None,
    };
    let nb_layers = match parse_usize(h[2]) {
        Some(v) => v,
        None => return None,
    };
    let activation = match Activation::from_string(h[3]) {
        Some(a) => a.act_type,
        None => return None,
    };
    if to - from - 1 != nb_layers {
        return None;
    }
    let mut layers: Vec<MatrixText> = Vec::with_capacity(nb_layers);
    let mut k: usize = from + 1;
    while k < to
        invariant
            from < k <= to <= lines@.len(),
            to - from - 1 == nb_layers,
            forall|j: int| 0 <= j < lines@.len() ==> is_ascii(#[trigger] lines@[j]),
            ls == strs_view(lines@).subrange(from as int, to as int),
            hs == split(ls[0], ' '),
            hs.len() == 4,
            is_canonical_usize(hs[0]),
            is_canonical_usize(hs[1]),
            is_canonical_usize(hs[2]),
            input_dimension == value_of(hs[0]),
            output_dimension == value_of(hs[1]),
            nb_layers == value_of(hs[2]),
            tag_activation(hs[3]) == Some(activation),
            layers@.len() == k - from - 1,
            forall|j: int| 1 <= j < k - from ==> #[trigger] parse_matrix_line(ls[j]) is Some,
            forall|j: int| 0 <= j < layers@.len() ==> Some((#[trigger] layers@[j])@) == parse_matrix_line(ls[j + 1]),
        decreases to - k,
    {
        proof {
            assert(ls[k - from] == lines@[k as int]@);
        }
        let m = match read_matrix_line(lines[k]) {
            Some(m) => m,
            None => {
                proof {
                    assert(parse_matrix_line(ls[k - from]) is None);
                }
                return None;
            }
        };
        layers.push(m);
        k = k + 1;
    }
    let g = GateText { input_dimension, output_dimension, activation, layers };
    proof {
        let expected = Seq::new((ls.len() - 1) as nat, |i: int| parse_matrix_line(ls[i + 1])->0);
        assert(g@.3 =~= expected);
    }
    Some(g)
}

/// Reads a gate from its text; `None` unless `parse_gate_text` gives one.
pub fn read_gate_text(s: &str) -> (r: Option<GateText>)
    ensures
        match r {
            Some(g) => parse_gate_text(s@) == Some(g@),
            None => parse_gate_text(s@) is None,
        },
{
    if !s.is_ascii() {
        return None;
    }
    let lines = split_ascii(s, '\n');
    proof {
        assert(strs_view(lines@).subrange(0, lines@.len() as int) =~= split(s@, '\n'));
    }
    read_gate_lines(&lines, 0, lines.len())
}

/// Reads a network from its text; `None` unless `parse_cesure_text` gives one.
pub fn read_cesure_text(s: &str) -> (r: Option<CesureText>)
    ensures
        match r {
            Some(c) => parse_cesure_text(s@) == Some(c@),
            None => parse_cesure_text(s@) is None,
        },
{
    if !s.is_ascii() {
        return None;
    }
    let lines = split_ascii(s, '\n');
    let ghost ls = split(s@, '\n');
    proof {
        assert(strs_view(lines@) =~= ls);
    }
    if lines.len() < 3 {
        return None;
    }
    let h = split_ascii(lines[0], ' ');
    if h.len() != 3 {
        return None;
    }
    let infos_dimension = match parse_usize(h[0]) {
        Some(v) => v,
        None => return None,
    };
    let context_dimension = match parse_usize(h[1]) {
        Some(v) => v,
        None => return None,
    };
    let output_dimension = match parse_usize(h[2]) {
        Some(v) => v,
        None => return None,
    };
    if !crate::text::str_eq(lines[1], output_marker_str()) {
        return None;
    }
    let g = split_ascii(lines[2], ' ');
    if g.len() != 4 {
        return None;
    }
    let n1 = match parse_usize(g[2]) {
        Some(v) => v,
        None => return None,
    };
    if lines.len() < 4 || n1 > lines.len() - 4 {
        return None;
    }
    if !crate::text::str_eq(lines[n1 + 3], memory_marker_str()) {
        return None;
    }
    let output_gate = match read_gate_lines(&lines, 2, n1 + 3) {
        Some(x) => x,
        None => return None,
    };
    let memory_gate = match read_gate_lines(&lines, n1 + 4, lines.len()) {
        Some(x) => x,
        None => return None,
    };
    Some(CesureText { infos_dimension, context_dimension, output_dimension, output_gate, memory_gate })
}

/// Joining ASCII pieces with an ASCII separator gives ASCII text.
proof fn lemma_join_ascii(parts: Seq<Seq<char>>, sep: char)
    requires
        sep <= '\u{7f}',
        forall|i: int| 0 <= i < parts.len() ==> is_ascii_chars(#[trigger] parts[i]),
    ensures
        is_ascii_chars(join(parts, sep)),
    decreases parts.len(),
{
    if parts.len() == 1 {
        assert(is_ascii_chars(parts[0]));
    } else if parts.len() > 1 {
        let init = parts.drop_last();
        assert forall|i: int| 0 <= i < init.len() implies is_ascii_chars(#[trigger] init[i]) by {
            assert(init[i] == parts[i]);
        }
        lemma_join_ascii(init, sep);
        assert(is_ascii_chars(parts[parts.len() - 1]));
        let j = join(parts, sep);
        let ji = join(init, sep);
        assert forall|i: int| 0 <= i < j.len() implies '\0' <= #[trigger] j[i] <= '\u{7f}' by {
            if i < ji.len() {
                assert(j[i] == ji[i]);
            } else if i == ji.len() {
                assert(j[i] == sep);
            } else {
                assert(j[i] == parts.last()[i - ji.len() - 1]);
            }
        }
    }
}

/// What a line piece needs to be split back out: ASCII, with neither
/// space nor line break.
pub open spec fn plain_piece(t: Seq<char>) -> bool {
    &&& is_ascii_chars(t)
    &&& free_of(t, ' ')
    &&& free_of(t, '\n')
}

proof fn lemma_digits_plain(n: nat)
    ensures
        plain_piece(digits(n)),
{
    lemma_digits(n);
}

proof fn lemma_tag_plain(a: ActivationType)
    ensures
        plain_piece(a.tag_spec()),
        tag_activation(a.tag_spec()) == Some(a),
{
    reveal_strlit("sigmoid");
    reveal_strlit("tanh");
    crate::activation::lemma_tag_round_trip(crate::activation::Activation { act_type: a });
}

/// A space-joined line of plain pieces: ASCII, without line break, and
/// splitting at spaces gives the pieces back.
proof fn lemma_plain_line(parts: Seq<Seq<char>>)
    requires
        parts.len() >= 1,
        forall|i: int| 0 <= i < parts.len() ==> plain_piece(#[trigger] parts[i]),
    ensures
        is_ascii_chars(join(parts, ' ')),
        free_of(join(parts, ' '), '\n'),
        split(join(parts, ' '), ' ') == parts,
{
    assert forall|i: int| 0 <= i < parts.len() implies is_ascii_chars(#[trigger] parts[i]) by {
        assert(plain_piece(parts[i]));
    }
    lemma_join_ascii(parts, ' ');
    assert(all_free_of(parts, '\n'));
    lemma_join_free(parts, ' ', '\n');
    assert(all_free_of(parts, ' '));
    lemma_split_join(parts, ' ');
}

/// A valid matrix's line reads back as the matrix.
pub proof fn lemma_matrix_line_round_trip(m: MatrixV)
    requires
        matrix_valid(m),
    ensures
        parse_matrix_line(matrix_line(m)) == Some(m),
        is_ascii_chars(matrix_line(m)),
        free_of(matrix_line(m), '\n'),
{
    let parts = seq![digits(m.0), digits(m.1)] + m.2;
    lemma_digits_plain(m.0);
    lemma_digits_plain(m.1);
    lemma_digits(m.0);
    lemma_digits(m.1);
    assert forall|i: int| 0 <= i < parts.len() implies plain_piece(#[trigger] parts[i]) by {
        if i >= 2 {
            assert(parts[i] == m.2[i - 2]);
            assert(is_token(m.2[i - 2]));
        }
    }
    lemma_plain_line(parts);
    let toks = split(matrix_line(m), ' ');
    assert(toks == parts);
    assert forall|i: int| 2 <= i < toks.len() implies is_token(#[trigger] toks[i]) by {
        assert(toks[i] == m.2[i - 2]);
    }
    assert(toks.subrange(2, toks.len() as int) =~= m.2);
}

/// A valid gate's lines: each ASCII without line break, and they read back as that gate.
pub proof fn lemma_gate_lines_round_trip(g: GateV)
    requires
        gate_valid(g),
    ensures
        parse_gate_lines(gate_lines(g)) == Some(g),
        forall|i: int| 0 <= i < gate_lines(g).len() ==> is_ascii_chars(#[trigger] gate_lines(g)[i])
            && free_of(gate_lines(g)[i], '\n'),
{
    let lines = gate_lines(g);
    let hparts = seq![digits(g.0), digits(g.1), digits(g.3.len()), g.2.tag_spec()];
    lemma_digits_plain(g.0);
    lemma_digits_plain(g.1);
    lemma_digits_plain(g.3.len());
    lemma_digits(g.0);
    lemma_digits(g.1);
    lemma_digits(g.3.len());
    lemma_tag_plain(g.2);
    assert forall|i: int| 0 <= i < hparts.len() implies plain_piece(#[trigger] hparts[i]) by {}
    lemma_plain_line(hparts);
    assert forall|i: int| 1 <= i < lines.len() implies #[trigger] parse_matrix_line(lines[i]) == Some(g.3[i - 1])
        && is_ascii_chars(lines[i]) && free_of(lines[i], '\n') by {
        assert(lines[i] == matrix_line(g.3[i - 1]));
        assert(matrix_valid(g.3[i - 1]));
        lemma_matrix_line_round_trip(g.3[i - 1]);
    }
    assert forall|i: int| 0 <= i < lines.len() implies is_ascii_chars(#[trigger] lines[i]) && free_of(lines[i], '\n') by {
        if i == 0 {
            assert(lines[0] == gate_header(g));
        } else {
            assert(parse_matrix_line(lines[i]) == Some(g.3[i - 1]));
        }
    }
    let h = split(lines[0], ' ');
    assert(lines[0] == gate_header(g));
    assert(h == hparts);
    assert(forall|i: int| 1 <= i < lines.len() ==> #[trigger] parse_matrix_line(lines[i]) is Some);
    let layers = Seq::new((lines.len() - 1) as nat, |i: int| parse_matrix_line(lines[i + 1])->0);
    assert(layers =~= g.3);
}

/// Law: a valid gate written as text reads back as the same gate.
pub proof fn lemma_gate_text_round_trip(g: GateV)
    requires
        gate_valid(g),
    ensures
        parse_gate_text(gate_text(g)) == Some(g),
{
    lemma_gate_lines_round_trip(g);
    let lines = gate_lines(g);
    assert(all_free_of(lines, '\n'));
    lemma_split_join(lines, '\n');
    lemma_join_ascii(lines, '\n');
}

/// Law: a valid network written as text reads back as the same network.
pub proof fn lemma_cesure_text_round_trip(c: CesureV)
    requires
        cesure_valid(c),
    ensures
        parse_cesure_text(cesure_text(c)) == Some(c),
{
    reveal_strlit("OUTPUT_GATE");
    reveal_strlit("MEMORY_GATE");
    let lines = cesure_lines(c);
    let g1 = gate_lines(c.3);
    let g2 = gate_lines(c.4);
    let n1 = c.3.3.len() as int;
    lemma_gate_lines_round_trip(c.3);
    lemma_gate_lines_round_trip(c.4);
    let hparts = seq![digits(c.0), digits(c.1), digits(c.2)];
    lemma_digits_plain(c.0);
    lemma_digits_plain(c.1);
    lemma_digits_plain(c.2);
    lemma_digits(c.0);
    lemma_digits(c.1);
    lemma_digits(c.2);
    assert forall|i: int| 0 <= i < hparts.len() implies plain_piece(#[trigger] hparts[i]) by {}
    lemma_plain_line(hparts);
    assert(g1.len() == n1 + 1);
    assert(lines.len() == n1 + 4 + g2.len());
    assert forall|i: int| 0 <= i < lines.len() implies is_ascii_chars(#[trigger] lines[i]) && free_of(lines[i], '\n') by {
        if i == 0 {
            assert(lines[i] == cesure_header(c));
        } else if i == 1 {
            assert(lines[i] == output_marker());
        } else if i < n1 + 3 {
            assert(lines[i] == g1[i - 2]);
        } else if i == n1 + 3 {
            assert(lines[i] == memory_marker());
        } else {
            assert(lines[i] == g2[i - n1 - 4]);
        }
    }
    assert(all_free_of(lines, '\n'));
    lemma_split_join(lines, '\n');
    lemma_join_ascii(lines, '\n');
    let s = cesure_text(c);
    assert(split(s, '\n') == lines);
    assert(lines[0] == cesure_header(c));
    assert(split(lines[0], ' ') == hparts);
    assert(lines[1] == output_marker());
    assert(lines[2] == g1[0]);
    assert(g1[0] == gate_header(c.3));
    let gh = seq![digits(c.3.0), digits(c.3.1), digits(n1 as nat), c.3.2.tag_spec()];
    lemma_digits_plain(c.3.0);
    lemma_digits_plain(c.3.1);
    lemma_digits_plain(n1 as nat);
    lemma_digits(n1 as nat);
    lemma_tag_plain(c.3.2);
    assert forall|i: int| 0 <= i < gh.len() implies plain_piece(#[trigger] gh[i]) by {}
    lemma_plain_line(gh);
    assert(split(lines[2], ' ') == gh);
    assert(announced_layers(lines[2]) == n1 as nat);
    assert(lines[n1 + 3] == memory_marker());
    assert(lines.subrange(2, n1 + 3) =~= g1);
    assert(lines.subrange(n1 + 4, lines.len() as int) =~= g2);
}

/// The layer shapes written in a gate's text chain from its input to its
/// output dimension, as a gate's layers must.
pub open spec fn text_shapes_ok(g: GateV) -> bool {
    &&& g.0 > 0
    &&& g.1 > 0
    &&& g.3.len() >= 1
    &&& forall|i: int| 0 <= i < g.3.len() ==> (#[trigger] g.3[i]).0 > 0 && g.3[i].1 > 0 && g.3[i].2.len() == g.3[i].0 * g.3[i].1
    &&& g.3[0].0 == g.0 + 1
    &&& forall|i: int| 0 < i < g.3.len() ==> (#[trigger] g.3[i]).0 == g.3[i - 1].1 + 1
    &&& g.3.last().1 == g.1
}

/// Writes a matrix in text form, one token per element by `fmt`.
pub fn matrix_to_text<T: Copy, F: Fn(T) -> String>(m: &Matrix<T>, fmt: &F) -> (r: MatrixText)
    requires
        forall|x: T| call_requires(*fmt, (x,)),
    ensures
        r.rows == m.rows,
        r.cols == m.cols,
        r.cells@.len() == m.datas@.len(),
        forall|k: int| 0 <= k < m.datas@.len() ==> call_ensures(*fmt, (m.datas@[k],), #[trigger] r.cells@[k]),
{
    let mut cells: Vec<String> = Vec::with_capacity(m.datas.len());
    let mut k: usize = 0;
    while k < m.datas.len()
        invariant
            forall|x: T| call_requires(*fmt, (x,)),
            k <= m.datas@.len(),
            cells@.len() == k,
            forall|j: int| 0 <= j < k ==> call_ensures(*fmt, (m.datas@[j],), #[trigger] cells@[j]),
        decreases m.datas@.len() - k,
    {
        let t = fmt(m.datas[k]);
        cells.push(t);
        k = k + 1;
    }
    MatrixText { rows: m.rows, cols: m.cols, cells }
}

/// Reads a matrix from text form, each element by `parse`; `None` when
/// the cell count does not match the shape or a cell does not parse.
pub fn matrix_from_text<T: Copy, F: Fn(&String) -> Option<T>>(m: &MatrixText, parse: &F) -> (r: Option<Matrix<T>>)
    requires
        forall|s: &String| call_requires(*parse, (s,)),
    ensures
        match r {
            Some(x) => {
                &&& x.rows == m.rows
                &&& x.cols == m.cols
                &&& m.cells@.len() == m.rows * m.cols
                &&& m.rows > 0 && m.cols > 0
                &&& x.wf()
                &&& forall|k: int| 0 <= k < x.len ==> call_ensures(*parse, (&m.cells@[k],), Some(#[trigger] x.datas@[k]))
            },
            None => m.rows == 0 || m.cols == 0 || m.cells@.len() != m.rows * m.cols
                || exists|k: int| 0 <= k < m.cells@.len() && call_ensures(*parse, (&m.cells@[k],), None::<T>),
        },
{
    let cell_count = m.cells.len();
    if m.rows == 0 || m.cols == 0 {
        return None;
    }
    match m.rows.checked_mul(m.cols) {
        Some(n) => {
            if n != m.cells.len() {
                return None;
            }
        },
        None => return None,
    }
    let mut datas: Vec<T> = Vec::with_capacity(m.cells.len());
    let mut k: usize = 0;
    while k < m.cells.len()
        invariant
            forall|s: &String| call_requires(*parse, (s,)),
            k <= m.cells@.len(),
            datas@.len() == k,
            forall|j: int| 0 <= j < k ==> call_ensures(*parse, (&m.cells@[j],), Some(#[trigger] datas@[j])),
        decreases m.cells@.len() - k,
    {
        match parse(&m.cells[k]) {
            Some(v) => datas.push(v),
            None => return None,
        }
        k = k + 1;
    }
    Some(Matrix { rows: m.rows, cols: m.cols, len: m.cells.len(), datas })
}

impl<T: Copy> FeedforwardGate<T> {
    /// This gate in text form, one token per weight by `fmt`.
    pub fn to_text_form<F: Fn(T) -> String>(&self, fmt: &F) -> (r: GateText)
        requires
            self.wf(),
            forall|x: T| call_requires(*fmt, (x,)),
        ensures
            gate_written(*self, r, *fmt),
    {
        let mut layers: Vec<MatrixText> = Vec::with_capacity(self.layers.len());
        let mut i: usize = 0;
        while i < self.layers.len()
            invariant
                forall|x: T| call_requires(*fmt, (x,)),
                i <= self.layers@.len(),
                layers@.len() == i,
                forall|j: int| 0 <= j < i ==> (#[trigger] layers@[j]).rows == self.layers@[j].rows
                    && layers@[j].cols == self.layers@[j].cols && layers@[j].cells@.len() == self.layers@[j].datas@.len(),
                forall|j: int, k: int| 0 <= j < i && 0 <= k < self.layers@[j].datas@.len() ==>
                    call_ensures(*fmt, (self.layers@[j].datas@[k],), #[trigger] layers@[j].cells@[k]),
            decreases self.layers@.len() - i,
        {
            let t = matrix_to_text(&self.layers[i], fmt);
            layers.push(t);
            i = i + 1;
        }
        GateText {
            input_dimension: self.input_dimension,
            output_dimension: self.output_dimension,
            activation: self.activation.act_type,
            layers,
        }
    }

    /// A gate from its text form, each weight by `parse`; `None` when the
    /// layer shapes do not chain from input to output or a weight does not parse.
    #[verifier::rlimit(40)]
    pub fn from_text_form<F: Fn(&String) -> Option<T>>(g: &GateText, parse: &F) -> (r: Option<FeedforwardGate<T>>)
        requires
            forall|s: &String| call_requires(*parse, (s,)),
        ensures
            match r {
                Some(x) => text_shapes_ok(g@) && gate_read(*g, x, *parse),
                None => !text_shapes_ok(g@) || exists|i: int, k: int| 0 <= i < g.layers@.len() && 0 <= k < g.layers@[i].cells@.len()
                    && call_ensures(*parse, (&g.layers@[i].cells@[k],), None::<T>),
            },
    {
        let n = g.layers.len();
        if g.input_dimension == 0 || g.output_dimension == 0 || n == 0 {
            return None;
        }
        let mut layers: Vec<Matrix<T>> = Vec::with_capacity(n);
        let mut i: usize = 0;
        while i < n
            invariant
                forall|s: &String| call_requires(*parse, (s,)),
                n == g.layers@.len(),
                n >= 1,
                g.input_dimension > 0,
                g.output_dimension > 0,
                i <= n,
                layers@.len() == i,
                forall|j: int| 0 <= j < i ==> (#[trigger] layers@[j]).wf() && layers@[j].rows == g.layers@[j].rows
                    && layers@[j].cols == g.layers@[j].cols && g.layers@[j].cells@.len() == g.layers@[j].rows * g.layers@[j].cols,
                i > 0 ==> layers@[0].rows == g.input_dimension + 1,
                forall|j: int| 0 < j < i ==> (#[trigger] layers@[j]).rows == layers@[j - 1].cols + 1,
                forall|j: int, k: int| 0 <= j < i && 0 <= k < layers@[j].len ==>
                    call_ensures(*parse, (&g.layers@[j].cells@[k],), Some(#[trigger] layers@[j].datas@[k])),
            decreases n - i,
        {
            let m = match matrix_from_text(&g.layers[i], parse) {
                Some(m) => m,
                None => {
                    proof {
                        if g.layers@[i as int].rows == 0 || g.layers@[i as int].cols == 0
                            || g.layers@[i as int].cells@.len() != g.layers@[i as int].rows * g.layers@[i as int].cols {
                            assert(g@.3[i as int] == g.layers@[i as int]@);
                            assert(!text_shapes_ok(g@));
                        }
                    }
                    return None;
                },
            };
            let expected: usize = if i == 0 { g.input_dimension } else { layers[i - 1].cols };
            if m.rows == 0 || m.rows - 1 != expected {
                proof {
                    assert(g@.3[i as int] == g.layers@[i as int]@);
                    if i > 0 {
                        assert(g@.3[i - 1] == g.layers@[i - 1]@);
                    }
                }
                return None;
            }
            layers.push(m);
            i = i + 1;
        }
        if layers[n - 1].cols != g.output_dimension {
            proof {
                assert(g@.3[n - 1] == g.layers@[n - 1]@);
            }
            return None;
        }
        let r = FeedforwardGate {
            input_dimension: g.input_dimension,
            output_dimension: g.output_dimension,
            nb_layers: n,
            layers,
            activation: Activation { act_type: g.activation },
        };
        proof {
            assert forall|j: int| 0 <= j < g@.3.len() implies (#[trigger] g@.3[j]).0 > 0 && g@.3[j].1 > 0
                && g@.3[j].2.len() == g@.3[j].0 * g@.3[j].1 by {
                assert(g@.3[j] == g.layers@[j]@);
                assert(r.layers@[j].wf());
                assert(r.layers@[j].rows == g.layers@[j].rows && r.layers@[j].cols == g.layers@[j].cols);
                assert(g.layers@[j].cells@.len() == g.layers@[j].rows * g.layers@[j].cols);
                assert(g.layers@[j]@.2.len() == g.layers@[j].cells@.len());
            }
            assert forall|j: int| 0 < j < g@.3.len() implies (#[trigger] g@.3[j]).0 == g@.3[j - 1].1 + 1 by {
                assert(g@.3[j] == g.layers@[j]@);
                assert(g@.3[j - 1] == g.layers@[j - 1]@);
                assert(r.layers@[j].rows == g.layers@[j].rows);
                assert(r.layers@[j - 1].cols == g.layers@[j - 1].cols);
                assert(r.layers@[j].rows == r.layers@[j - 1].cols + 1);
            }
            assert(g@.3[0] == g.layers@[0]@);
            assert(g@.3.last() == g.layers@[n - 1]@);
        }
        Some(r)
    }
}

/// The dimensions written in a network's text fit its gates as a network's
/// gates must fit, and both gates' layer shapes chain.
pub open spec fn cesure_shapes_ok(c: CesureV) -> bool {
    &&& c.0 > 0
    &&& c.1 > 0
    &&& c.2 > 0
    &&& text_shapes_ok(c.3)
    &&& text_shapes_ok(c.4)
    &&& c.3.0 == c.0 + c.1
    &&& c.3.1 == c.2
    &&& c.4.0 == c.0 + c.1 + c.2
    &&& c.4.1 == c.1
}

/// `t` is `g` in text form, each weight written by `fmt`.
pub open spec fn gate_written<T, F: Fn(T) -> String>(g: FeedforwardGate<T>, t: GateText, fmt: F) -> bool {
    &&& t.input_dimension == g.input_dimension
    &&& t.output_dimension == g.output_dimension
    &&& t.activation == g.activation.act_type
    &&& t.layers@.len() == g.layers@.len()
    &&& forall|i: int| 0 <= i < t.layers@.len() ==> (#[trigger] t.layers@[i]).rows == g.layers@[i].rows
        && t.layers@[i].cols == g.layers@[i].cols && t.layers@[i].cells@.len() == g.layers@[i].datas@.len()
    &&& forall|i: int, k: int| 0 <= i < t.layers@.len() && 0 <= k < g.layers@[i].datas@.len() ==>
        call_ensures(fmt, (g.layers@[i].datas@[k],), #[trigger] t.layers@[i].cells@[k])
}

/// `x` is the well-formed gate read from the text form `t`, each weight by `parse`.
pub open spec fn gate_read<T, F: Fn(&String) -> Option<T>>(t: GateText, x: FeedforwardGate<T>, parse: F) -> bool {
    &&& x.wf()
    &&& x.input_dimension == t.input_dimension
    &&& x.output_dimension == t.output_dimension
    &&& x.activation.act_type == t.activation
    &&& x.layers@.len() == t.layers@.len()
    &&& forall|i: int| 0 <= i < x.layers@.len() ==> (#[trigger] x.layers@[i]).rows == t.layers@[i].rows
        && x.layers@[i].cols == t.layers@[i].cols
    &&& forall|i: int, k: int| 0 <= i < x.layers@.len() && 0 <= k < x.layers@[i].len ==>
        call_ensures(parse, (&t.layers@[i].cells@[k],), Some(#[trigger] x.layers@[i].datas@[k]))
}

/// Writing a value with `fmt` gives a token, and `parse` reads any text
/// equal to it back as that value.
pub open spec fn format_round_trips<T, F: Fn(T) -> String, G: Fn(&String) -> Option<T>>(fmt: F, parse: G) -> bool {
    forall|v: T, s: String| #[trigger] call_ensures(fmt, (v,), s) ==> is_token(s@)
        && forall|s2: String, y: Option<T>| s2@ == s@ && #[trigger] call_ensures(parse, (&s2,), y) ==> y == Some(v)
}

/// Law: a gate written in text form, that text read back, and a gate read
/// from it, gives the same gate: dimensions, activation, layer shapes and
/// every weight, when reading a written weight gives it back.
pub proof fn lemma_gate_value_round_trip<T, F: Fn(T) -> String, G: Fn(&String) -> Option<T>>(
    g: FeedforwardGate<T>,
    t: GateText,
    t2: GateText,
    x: FeedforwardGate<T>,
    fmt: F,
    parse: G,
)
    requires
        g.wf(),
        format_round_trips(fmt, parse),
        gate_written(g, t, fmt),
        parse_gate_text(gate_text(t@)) == Some(t2@),
        gate_read(t2, x, parse),
    ensures
        x.input_dimension == g.input_dimension,
        x.output_dimension == g.output_dimension,
        x.activation == g.activation,
        x.nb_layers == g.nb_layers,
        forall|i: int| 0 <= i < g.nb_layers ==> (#[trigger] x.layers@[i]).rows == g.layers@[i].rows
            && x.layers@[i].cols == g.layers@[i].cols && x.layers@[i].datas@ == g.layers@[i].datas@,
{
    assert forall|i: int| 0 <= i < t@.3.len() implies matrix_valid(#[trigger] t@.3[i]) by {
        assert(t@.3[i] == t.layers@[i]@);
        assert(g.layers@[i].wf());
        assert forall|k: int| 0 <= k < t@.3[i].2.len() implies is_token(#[trigger] t@.3[i].2[k]) by {
            assert(t@.3[i].2[k] == t.layers@[i].cells@[k]@);
            assert(call_ensures(fmt, (g.layers@[i].datas@[k],), t.layers@[i].cells@[k]));
        }
    }
    assert(gate_valid(t@));
    lemma_gate_text_round_trip(t@);
    assert(t2@ == t@);
    assert(x.activation.act_type == g.activation.act_type);
    assert forall|i: int| 0 <= i < g.nb_layers implies (#[trigger] x.layers@[i]).rows == g.layers@[i].rows
        && x.layers@[i].cols == g.layers@[i].cols && x.layers@[i].datas@ == g.layers@[i].datas@ by {
        assert(t2@.3[i] == t@.3[i]);
        assert(t2@.3[i] == t2.layers@[i]@);
        assert(t@.3[i] == t.layers@[i]@);
        assert(x.layers@[i].wf());
        assert(g.layers@[i].wf());
        assert forall|k: int| 0 <= k < g.layers@[i].datas@.len() implies x.layers@[i].datas@[k] == g.layers@[i].datas@[k] by {
            assert(t2@.3[i].2[k] == t2.layers@[i].cells@[k]@);
            assert(t@.3[i].2[k] == t.layers@[i].cells@[k]@);
            assert(call_ensures(parse, (&t2.layers@[i].cells@[k],), Some(x.layers@[i].datas@[k])));
            assert(call_ensures(fmt, (g.layers@[i].datas@[k],), t.layers@[i].cells@[k]));
        }
        assert(x.layers@[i].datas@ =~= g.layers@[i].datas@);
    }
}

/// Some weight token of a gate text is refused by `parse`.
pub open spec fn some_cell_refused<T, F: Fn(&String) -> Option<T>>(g: GateText, parse: F) -> bool {
    exists|i: int, k: int| 0 <= i < g.layers@.len() && 0 <= k < g.layers@[i].cells@.len()
        && call_ensures(parse, (&g.layers@[i].cells@[k],), None::<T>)
}

impl<T: Copy> Cesure<T> {
    /// The network's dimensions and both gates in text form, one token per weight by `fmt`.
    pub fn to_text_form<F: Fn(T) -> String>(&self, fmt: &F) -> (r: CesureText)
        requires
            self.wf(),
            forall|x: T| call_requires(*fmt, (x,)),
        ensures
            r.infos_dimension == self.infos_dimension,
            r.context_dimension == self.context_dimension,
            r.output_dimension == self.output_dimension,
            gate_written(self.output_gate, r.output_gate, *fmt),
            gate_written(self.memory_gate, r.memory_gate, *fmt),
    {
        CesureText {
            infos_dimension: self.infos_dimension,
            context_dimension: self.context_dimension,
            output_dimension: self.output_dimension,
            output_gate: self.output_gate.to_text_form(fmt),
            memory_gate: self.memory_gate.to_text_form(fmt),
        }
    }

    /// A network from its text form, weights by `parse`, descriptor and
    /// context set to `zero`; `None` when the shapes do not fit or a weight
    /// does not parse.
    pub fn from_text_form<F: Fn(&String) -> Option<T>>(c: &CesureText, zero: T, parse: &F) -> (r: Option<Cesure<T>>)
        requires
            forall|s: &String| call_requires(*parse, (s,)),
        ensures
            match r {
                Some(x) => {
                    &&& x.wf()
                    &&& cesure_shapes_ok(c@)
                    &&& x.infos_dimension == c.infos_dimension
                    &&& x.context_dimension == c.context_dimension
                    &&& x.output_dimension == c.output_dimension
                    &&& gate_read(c.output_gate, x.output_gate, *parse)
                    &&& gate_read(c.memory_gate, x.memory_gate, *parse)
                    &&& forall|k: int| 0 <= k < x.infos.len ==> x.infos.datas@[k] == zero
                    &&& forall|k: int| 0 <= k < x.context.len ==> x.context.datas@[k] == zero
                },
                None => !cesure_shapes_ok(c@) || some_cell_refused(c.output_gate, *parse) || some_cell_refused(c.memory_gate, *parse),
            },
    {
        let i = c.infos_dimension;
        let k = c.context_dimension;
        let o = c.output_dimension;
        if i == 0 || k == 0 || o == 0 {
            return None;
        }
        let ik = match i.checked_add(k) {
            Some(v) => v,
            None => return None,
        };
        let iko = match ik.checked_add(o) {
            Some(v) => v,
            None => return None,
        };
        if c.output_gate.input_dimension != ik || c.output_gate.output_dimension != o
            || c.memory_gate.input_dimension != iko || c.memory_gate.output_dimension != k {
            return None;
        }
        let output_gate = match FeedforwardGate::from_text_form(&c.output_gate, parse) {
            Some(g) => g,
            None => return None,
        };
        let memory_gate = match FeedforwardGate::from_text_form(&c.memory_gate, parse) {
            Some(g) => g,
            None => return None,
        };
        Some(Cesure {
            infos_dimension: i,
            context_dimension: k,
            output_dimension: o,
            output_gate,
            memory_gate,
            infos: Matrix::new_row(i, zero),
            context: Matrix::new_row(k, zero),
        })
    }
}

/// Law: a network written in text form, the text read back, and the
/// network read from it, gives the same dimensions and the same gates
/// (activations, layer shapes and every weight), with descriptor and
/// context set to `zero`, when reading a written weight gives it back.
pub proof fn lemma_cesure_value_round_trip<T, F: Fn(T) -> String, G: Fn(&String) -> Option<T>>(
    c: Cesure<T>,
    t: CesureText,
    t2: CesureText,
    x: Cesure<T>,
    zero: T,
    fmt: F,
    parse: G,
)
    requires
        c.wf(),
        format_round_trips(fmt, parse),
        t.infos_dimension == c.infos_dimension,
        t.context_dimension == c.context_dimension,
        t.output_dimension == c.output_dimension,
        gate_written(c.output_gate, t.output_gate, fmt),
        gate_written(c.memory_gate, t.memory_gate, fmt),
        parse_cesure_text(cesure_text(t@)) == Some(t2@),
        x.wf(),
        x.infos_dimension == t2.infos_dimension,
        x.context_dimension == t2.context_dimension,
        x.output_dimension == t2.output_dimension,
        gate_read(t2.output_gate, x.output_gate, parse),
        gate_read(t2.memory_gate, x.memory_gate, parse),
    ensures
        x.infos_dimension == c.infos_dimension,
        x.context_dimension == c.context_dimension,
        x.output_dimension == c.output_dimension,
        x.output_gate.activation == c.output_gate.activation,
        x.memory_gate.activation == c.memory_gate.activation,
        x.output_gate.nb_layers == c.output_gate.nb_layers,
        x.memory_gate.nb_layers == c.memory_gate.nb_layers,
        forall|i: int| 0 <= i < c.output_gate.nb_layers ==> (#[trigger] x.output_gate.layers@[i]).rows == c.output_gate.layers@[i].rows
            && x.output_gate.layers@[i].cols == c.output_gate.layers@[i].cols
            && x.output_gate.layers@[i].datas@ == c.output_gate.layers@[i].datas@,
        forall|i: int| 0 <= i < c.memory_gate.nb_layers ==> (#[trigger] x.memory_gate.layers@[i]).rows == c.memory_gate.layers@[i].rows
            && x.memory_gate.layers@[i].cols == c.memory_gate.layers@[i].cols
            && x.memory_gate.layers@[i].datas@ == c.memory_gate.layers@[i].datas@,
{
    lemma_written_gate_valid(c.output_gate, t.output_gate, fmt, parse);
    lemma_written_gate_valid(c.memory_gate, t.memory_gate, fmt, parse);
    assert(cesure_valid(t@));
    lemma_cesure_text_round_trip(t@);
    assert(t2@ == t@);
    assert(t2.output_gate@ == t.output_gate@);
    assert(t2.memory_gate@ == t.memory_gate@);
    lemma_gate_text_round_trip(t.output_gate@);
    lemma_gate_text_round_trip(t.memory_gate@);
    lemma_gate_value_round_trip(c.output_gate, t.output_gate, t2.output_gate, x.output_gate, fmt, parse);
    lemma_gate_value_round_trip(c.memory_gate, t.memory_gate, t2.memory_gate, x.memory_gate, fmt, parse);
}

/// A gate written in text form with tokens is valid text.
proof fn lemma_written_gate_valid<T, F: Fn(T) -> String, G: Fn(&String) -> Option<T>>(g: FeedforwardGate<T>, t: GateText, fmt: F, parse: G)
    requires
        g.wf(),
        format_round_trips(fmt, parse),
        gate_written(g, t, fmt),
    ensures
        gate_valid(t@),
{
    assert forall|i: int| 0 <= i < t@.3.len() implies matrix_valid(#[trigger] t@.3[i]) by {
        assert(t@.3[i] == t.layers@[i]@);
        assert(g.layers@[i].wf());
        assert forall|k: int| 0 <= k < t@.3[i].2.len() implies is_token(#[trigger] t@.3[i].2[k]) by {
            assert(t@.3[i].2[k] == t.layers@[i].cells@[k]@);
            assert(call_ensures(fmt, (g.layers@[i].datas@[k],), t.layers@[i].cells@[k]));
        }
    }
}

} // verus!
