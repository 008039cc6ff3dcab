//! Streaming private OSC transport and UTF-8/UTF-16 offset conversion.
use vstd::prelude::*;
use crate::model::InputContext;
use crate::text::{byte_len, char_utf8_width, chars_of, lemma_prefix_lengths_monotone, lemma_prefix_lengths_step, utf16_len, utf8_len};

verus! {

/// Whether `offset` is a character boundary of `s` measured in UTF-16 code
/// units, and `byte` is the same boundary measured in UTF-8 bytes.
pub open spec fn utf16_boundary_at_byte(s: Seq<char>, offset: int, byte: int) -> bool {
    exists|i: int| 0 <= i <= s.len() && utf16_len(#[trigger] s.take(i)) == offset && utf8_len(s.take(i)) == byte
}

/// Whether `offset` is a UTF-16 character boundary of `s`.
pub open spec fn is_utf16_boundary(s: Seq<char>, offset: int) -> bool {
    exists|i: int| 0 <= i <= s.len() && utf16_len(#[trigger] s.take(i)) == offset
}

/// Whether `offset` is a UTF-8 character boundary of `s`.
pub open spec fn is_utf8_boundary(s: Seq<char>, offset: int) -> bool {
    exists|i: int| 0 <= i <= s.len() && utf8_len(#[trigger] s.take(i)) == offset
}

/// Whether the UTF-16 range `start..end` of `s` falls on character
/// boundaries, in order.
pub open spec fn utf16_range_ok(s: Seq<char>, start: int, end: int) -> bool {
    exists|b1: int, b2: int| utf16_boundary_at_byte(s, start, b1) && utf16_boundary_at_byte(s, end, b2) && b1 <= b2
}

/// An input context that the shell reported with UTF-16 offsets, moved to
/// UTF-8 byte offsets of `line`. A range that does not fall on character
/// boundaries in order suppresses the context, with an empty range at 0.
pub fn decode_context(line: &str, context: InputContext) -> (r: InputContext)
    ensures
        r.command == context.command,
        r.arguments == context.arguments,
        r.prefix == context.prefix,
        r.command_position == context.command_position,
        utf16_range_ok(line@, context.replace_start as int, context.replace_end as int) ==> {
            &&& utf16_boundary_at_byte(line@, context.replace_start as int, r.replace_start as int)
            &&& utf16_boundary_at_byte(line@, context.replace_end as int, r.replace_end as int)
            &&& r.suppressed == context.suppressed
        },
        !utf16_range_ok(line@, context.replace_start as int, context.replace_end as int) ==> {
            &&& r.suppressed
            &&& r.replace_start == 0
            &&& r.replace_end == 0
        },
{
    let mut context = context;
    let start = utf16_to_byte(line, context.replace_start);
    let end = utf16_to_byte(line, context.replace_end);
    let ghost s = line@;
    match (start, end) {
        (Some(a), Some(b)) => {
            if a <= b {
                context.replace_start = a;
                context.replace_end = b;
                return context;
            }
            proof {
                assert forall|b1: int, b2: int| utf16_boundary_at_byte(s, context.replace_start as int, b1)
                    && utf16_boundary_at_byte(s, context.replace_end as int, b2) implies b1 > b2 by {
                    lemma_utf16_byte_unique(s, context.replace_start as int, b1, a as int);
                    lemma_utf16_byte_unique(s, context.replace_end as int, b2, b as int);
                }
            }
        },
        _ => {},
    }
    context.suppressed = true;
    context.replace_start = 0;
    context.replace_end = 0;
    context
}

/// The UTF-8 offset of a UTF-16 boundary is unique.
pub proof fn lemma_utf16_byte_unique(s: Seq<char>, u: int, b1: int, b2: int)
    requires
        utf16_boundary_at_byte(s, u, b1),
        utf16_boundary_at_byte(s, u, b2),
    ensures
        b1 == b2,
{
    let i = choose|i: int| 0 <= i <= s.len() && utf16_len(#[trigger] s.take(i)) == u && utf8_len(s.take(i)) == b1;
    let j = choose|j: int| 0 <= j <= s.len() && utf16_len(#[trigger] s.take(j)) == u && utf8_len(s.take(j)) == b2;
    if i < j {
        lemma_prefix_lengths_monotone(s, i, j);
    } else if j < i {
        lemma_prefix_lengths_monotone(s, j, i);
    }
}

/// The length of a text in UTF-16 code units.
pub fn utf16_length(value: &str) -> (n: usize)
    ensures
        n == utf16_len(value@),
{
    let total = byte_len(value);
    let ghost s = value@;
    proof {
        assert(s.take(s.len() as int) =~= s);
        assert(is_utf8_boundary(s, total as int)) by {
            assert(utf8_len(s.take(s.len() as int)) == total);
        }
    }
    match byte_to_utf16(value, total) {
        Some(u) => {
            proof {
                let i = choose|i: int| 0 <= i <= s.len() && utf16_len(#[trigger] s.take(i)) == u && utf8_len(s.take(i)) == total;
                if i < s.len() {
                    lemma_prefix_lengths_monotone(s, i, s.len() as int);
                }
            }
            u
        },
        None => 0,
    }
}

/// Convert a UTF-16 code-unit offset into a UTF-8 byte offset. Offsets in the
/// middle of a surrogate pair or past the end have no byte equivalent.
pub fn utf16_to_byte(value: &str, offset: usize) -> (r: Option<usize>)
    ensures
        r.is_some() <==> is_utf16_boundary(value@, offset as int),
        r matches Some(b) ==> utf16_boundary_at_byte(value@, offset as int, b as int),
{
    let chars = chars_of(value);
    let total = byte_len(value);
    let ghost s = value@;
    let mut units: usize = 0;
    let mut bytes: usize = 0;
    let mut i: usize = 0;
    proof {
        assert(s.take(0) =~= Seq::<char>::empty());
        lemma_prefix_lengths_monotone(s, 0, s.len() as int);
        assert(s.take(s.len() as int) =~= s);
    }
    while i < chars.len()
        invariant
            chars@ == s,
            s == value@,
            total == utf8_len(s),
            i <= s.len(),
            units == utf16_len(s.take(i as int)),
            bytes == utf8_len(s.take(i as int)),
            units <= offset,
            forall|j: int| 0 <= j < i ==> utf16_len(#[trigger] s.take(j)) < offset,
        decreases s.len() - i,
    {
        if units == offset {
            assert(utf16_len(s.take(i as int)) == offset);
            return Some(bytes);
        }
        proof {
            lemma_prefix_lengths_step(s, i as int);
            lemma_prefix_lengths_monotone(s, i as int + 1, s.len() as int);
            lemma_prefix_lengths_monotone(s, i as int, s.len() as int);
            assert(s.take(s.len() as int) =~= s);
        }
        let c = chars[i];
        let w16: usize = if (c as u32) < 0x10000 { 1 } else { 2 };
        let w8 = char_utf8_width(c);
        if offset - units < w16 {
            proof {
                assert forall|j: int| 0 <= j <= s.len() implies utf16_len(#[trigger] s.take(j)) != offset by {
                    if j > i {
                        lemma_prefix_lengths_monotone(s, i as int + 1, j);
                    }
                }
            }
            return None;
        }
        units = units + w16;
        bytes = bytes + w8;
        i = i + 1;
    }
    proof {
        assert(s.take(i as int) =~= s);
    }
    if units == offset {
        assert(utf16_len(s.take(i as int)) == offset);
        Some(bytes)
    } else {
        None
    }
}

/// Convert a UTF-8 byte offset into a UTF-16 code-unit offset. Offsets that
/// are not character boundaries, or lie past the end, have no equivalent.
pub fn byte_to_utf16(value: &str, offset: usize) -> (r: Option<usize>)
    ensures
        r.is_some() <==> is_utf8_boundary(value@, offset as int),
        r matches Some(u) ==> utf16_boundary_at_byte(value@, u as int, offset as int),
{
    let chars = chars_of(value);
    let total = byte_len(value);
    let ghost s = value@;
    let mut units: usize = 0;
    let mut bytes: usize = 0;
    let mut i: usize = 0;
    proof {
        assert(s.take(0) =~= Seq::<char>::empty());
        lemma_prefix_lengths_monotone(s, 0, s.len() as int);
        assert(s.take(s.len() as int) =~= s);
    }
    while i < chars.len()
        invariant
            chars@ == s,
            s == value@,
            total == utf8_len(s),
            i <= s.len(),
            units == utf16_len(s.take(i as int)),
            bytes == utf8_len(s.take(i as int)),
            bytes <= offset,
            units <= bytes,
            forall|j: int| 0 <= j < i ==> utf8_len(#[trigger] s.take(j)) < offset,
        decreases s.len() - i,
    {
        if bytes == offset {
            assert(utf8_len(s.take(i as int)) == offset);
            return Some(units);
        }
        proof {
            lemma_prefix_lengths_step(s, i as int);
            lemma_prefix_lengths_monotone(s, i as int + 1, s.len() as int);
            lemma_prefix_lengths_monotone(s, i as int, i as int + 1);
            assert(s.take(s.len() as int) =~= s);
        }
        let c = chars[i];
        let w16: usize = if (c as u32) < 0x10000 { 1 } else { 2 };
        let w8 = char_utf8_width(c);
        if offset - bytes < w8 {
            proof {
                assert forall|j: int| 0 <= j <= s.len() implies utf8_len(#[trigger] s.take(j)) != offset by {
                    if j > i {
                        lemma_prefix_lengths_monotone(s, i as int + 1, j);
                    }
                }
            }
            return None;
        }
        units = units + w16;
        bytes = bytes + w8;
        i = i + 1;
    }
    proof {
        assert(s.take(i as int) =~= s);
    }
    if bytes == offset {
        assert(utf8_len(s.take(i as int)) == offset);
        Some(units)
    } else {
        None
    }
}


/// Whether serde_json reads `bytes` as one JSON document.
pub uninterp spec fn json_document(bytes: Seq<u8>) -> bool;

/// `serde_json::from_slice::<serde_json::Value>`: whether the bytes are
/// one JSON document. Its result is named, not stated: it is a function of
/// the bytes alone.
#[verifier::external_body]
fn is_json_document(bytes: &[u8]) -> (r: bool)
    ensures
        r == json_document(bytes@),
{
    serde_json::from_slice::<serde_json::Value>(bytes).is_ok()
}

/// A piece of decoded terminal output.
#[derive(Debug)]
pub enum Part {
    /// Terminal bytes, passed on unchanged.
    Data(Vec<u8>),
    /// The JSON text of an authenticated private message.
    Message(Vec<u8>),
    /// A cursor position query; `true` for the DEC private form.
    CursorQuery(bool),
}

/// The value of a [`Part`].
pub enum PartView {
    Data(Seq<u8>),
    Message(Seq<u8>),
    CursorQuery(bool),
}

impl View for Part {
    type V = PartView;

    open spec fn view(&self) -> PartView {
        match self {
            Part::Data(d) => PartView::Data(d@),
            Part::Message(m) => PartView::Message(m@),
            Part::CursorQuery(p) => PartView::CursorQuery(*p),
        }
    }
}

pub open spec fn part_views(v: Seq<Part>) -> Seq<PartView> {
    v.map_values(|p: Part| p@)
}

/// What one input byte makes the decoder do.
pub enum Act {
    /// Pass a byte on as terminal data.
    Byte(u8),
    /// End the current run of terminal data.
    Flush,
    /// Report a private message with this JSON text.
    Message(Seq<u8>),
    /// Report a cursor position query.
    Query(bool),
}

/// The bytes passed on as data.
pub open spec fn bytes_acts(b: Seq<u8>) -> Seq<Act> {
    b.map_values(|x: u8| Act::Byte(x))
}

/// `7776;TOKEN;`: what an authenticated message starts with after `ESC ]`.
pub open spec fn message_prefix(token: Seq<u8>) -> Seq<u8> {
    seq![0x37u8, 0x37u8, 0x37u8, 0x36u8, 0x3bu8] + token + seq![0x3bu8]
}

/// `ESC ] 7776;TOKEN;`.
pub open spec fn private_prefix(token: Seq<u8>) -> Seq<u8> {
    seq![0x1bu8, 0x5du8] + message_prefix(token)
}

pub open spec fn bytes_start_with(s: Seq<u8>, p: Seq<u8>) -> bool {
    p.len() <= s.len() && s.take(p.len() as int) == p
}

/// The cursor position queries `ESC [ 6 n` and `ESC [ ? 6 n`.
pub open spec fn cursor_query() -> Seq<u8> {
    seq![0x1bu8, 0x5bu8, 0x36u8, 0x6eu8]
}

pub open spec fn dec_cursor_query() -> Seq<u8> {
    seq![0x1bu8, 0x5bu8, 0x3fu8, 0x36u8, 0x6eu8]
}

/// One byte read by the decoder in `state` (0: text, 1: after ESC, 2: in an
/// operating-system command, 3: in a control sequence) with the escape
/// bytes `pending` held back: the next state, the bytes still held back,
/// and what the byte makes the decoder do.
pub open spec fn machine_step(state: u8, pending: Seq<u8>, b: u8, token: Seq<u8>) -> (u8, Seq<u8>, Seq<Act>) {
    if state == 0 {
        if b == 0x1b { (1, pending.push(b), Seq::empty()) } else { (0, pending, seq![Act::Byte(b)]) }
    } else if state == 1 {
        if b == 0x5d {
            (2, pending.push(b), Seq::empty())
        } else if b == 0x5b {
            (3, pending.push(b), Seq::empty())
        } else if b == 0x1b {
            (1, seq![b], bytes_acts(pending))
        } else {
            (0, Seq::empty(), bytes_acts(pending).push(Act::Byte(b)))
        }
    } else if state == 3 {
        let p = pending.push(b);
        if (0x40 <= b && b <= 0x7e) || p.len() > 4096 {
            if p == cursor_query() || p == dec_cursor_query() {
                (0, Seq::empty(), seq![Act::Flush, Act::Query(p == dec_cursor_query())])
            } else {
                (0, Seq::empty(), bytes_acts(p))
            }
        } else {
            (3, p, Seq::empty())
        }
    } else {
        let p = pending.push(b);
        let bel = b == 7;
        let st = p.len() >= 2 && p[p.len() - 2] == 0x1b && p.last() == 0x5c;
        if bel || st {
            let end = p.len() - if bel { 1int } else { 2int };
            let content = p.subrange(2, end);
            let prefix = message_prefix(token);
            if bytes_start_with(content, prefix) {
                let json = content.skip(prefix.len() as int);
                (0, Seq::empty(), if json_document(json) { seq![Act::Flush, Act::Message(json)] } else { seq![Act::Flush] })
            } else {
                (0, Seq::empty(), bytes_acts(p))
            }
        } else if p.len() > 1048576 && (!bytes_start_with(p, private_prefix(token)) || p.len() > 33554432) {
            (0, Seq::empty(), bytes_acts(p))
        } else {
            (2, p, Seq::empty())
        }
    }
}

/// The escape bytes held back in each state: none as text, the ESC after
/// an ESC, and at least `ESC ]` or `ESC [` inside a sequence.
pub open spec fn held_back(state: u8, pending: Seq<u8>) -> bool {
    &&& state <= 3
    &&& state == 0 ==> pending.len() == 0
    &&& state == 1 ==> pending == seq![0x1bu8]
    &&& state == 2 ==> pending.len() >= 2 && pending[0] == 0x1b && pending[1] == 0x5d
    &&& state == 3 ==> pending.len() >= 2 && pending[0] == 0x1b && pending[1] == 0x5b
}

/// The parts of a decoding so far, and the data not yet made a part.
pub struct Output {
    pub parts: Seq<PartView>,
    pub plain: Seq<u8>,
}

/// The output with its data not yet made a part made one.
pub open spec fn flushed(o: Output) -> Output {
    if o.plain.len() > 0 {
        Output { parts: o.parts.push(PartView::Data(o.plain)), plain: Seq::empty() }
    } else {
        o
    }
}

/// One act applied to the output: a message or query ends the current
/// run of data first.
pub open spec fn apply(o: Output, a: Act) -> Output {
    match a {
        Act::Byte(x) => Output { plain: o.plain.push(x), ..o },
        Act::Flush => flushed(o),
        Act::Message(m) => {
            let f = flushed(o);
            Output { parts: f.parts.push(PartView::Message(m)), plain: f.plain }
        },
        Act::Query(q) => {
            let f = flushed(o);
            Output { parts: f.parts.push(PartView::CursorQuery(q)), plain: f.plain }
        },
    }
}

/// Acts applied in order.
pub open spec fn apply_all(o: Output, acts: Seq<Act>) -> Output
    decreases acts.len(),
{
    if acts.len() == 0 {
        o
    } else {
        apply(apply_all(o, acts.drop_last()), acts.last())
    }
}

/// The decoder after reading `data`: state, held-back bytes and output.
pub open spec fn decode_run(state: u8, pending: Seq<u8>, data: Seq<u8>, token: Seq<u8>) -> (u8, Seq<u8>, Output)
    decreases data.len(),
{
    if data.len() == 0 {
        (state, pending, Output { parts: Seq::empty(), plain: Seq::empty() })
    } else {
        let (s, p, o) = decode_run(state, pending, data.drop_last(), token);
        let (s2, p2, acts) = machine_step(s, p, data.last(), token);
        (s2, p2, apply_all(o, acts))
    }
}

/// The parts one `feed` call returns: the output with the last run of
/// data made a part.
pub open spec fn fed_parts(o: Output) -> Seq<PartView> {
    if o.plain.len() > 0 { o.parts.push(PartView::Data(o.plain)) } else { o.parts }
}

/// A streaming decoder of terminal output that takes authenticated
/// private messages (`ESC ] 7776;TOKEN; json BEL`) and cursor position
/// queries out of it; every other byte, escape sequences included, is
/// passed on unchanged.
#[derive(Debug)]
pub struct Decoder {
    token: String,
    prefix: Vec<u8>,
    private: Vec<u8>,
    pending: Vec<u8>,
    state: u8,
}

impl Decoder {
    /// The UTF-8 bytes of the token.
    pub closed spec fn spec_token(&self) -> Seq<u8> {
        vstd::utf8::encode_utf8(self.token@)
    }

    /// The decoder's state.
    pub closed spec fn spec_state(&self) -> u8 {
        self.state
    }

    /// The escape bytes held back.
    pub closed spec fn spec_pending(&self) -> Seq<u8> {
        self.pending@
    }

    pub closed spec fn wf(&self) -> bool {
        &&& self.prefix@ == message_prefix(self.spec_token())
        &&& self.private@ == private_prefix(self.spec_token())
        &&& held_back(self.state, self.pending@)
    }

    /// A decoder for messages authenticated by `token`.
    pub fn new(token: String) -> (r: Decoder)
        ensures
            r.wf(),
            r.spec_token() == vstd::utf8::encode_utf8(token@),
            r.spec_state() == 0,
            r.spec_pending().len() == 0,
    {
        let t = crate::text::bytes_of(token.as_str());
        let mut prefix: Vec<u8> = Vec::new();
        prefix.push(0x37);
        prefix.push(0x37);
        prefix.push(0x37);
        prefix.push(0x36);
        prefix.push(0x3b);
        append_bytes(&mut prefix, t.as_slice());
        prefix.push(0x3b);
        let mut private: Vec<u8> = Vec::new();
        private.push(0x1b);
        private.push(0x5d);
        append_bytes(&mut private, prefix.as_slice());
        assert(prefix@ =~= message_prefix(t@));
        assert(private@ =~= private_prefix(t@));
        Decoder { token, prefix, private, pending: Vec::new(), state: 0 }
    }

    /// End of the stream: the escape bytes held back, and a fresh state.
    pub fn finish(&mut self) -> (r: Vec<u8>)
        requires
            old(self).wf(),
        ensures
            final(self).wf(),
            r@ == old(self).spec_pending(),
            final(self).spec_state() == 0,
            final(self).spec_pending().len() == 0,
            final(self).spec_token() == old(self).spec_token(),
    {
        self.state = 0;
        let mut r: Vec<u8> = Vec::new();
        std::mem::swap(&mut r, &mut self.pending);
        r
    }
}

fn append_bytes(v: &mut Vec<u8>, b: &[u8])
    ensures
        final(v)@ == old(v)@ + b@,
{
    let mut i: usize = 0;
    while i < b.len()
        invariant
            i <= b@.len(),
            v@ == old(v)@ + b@.take(i as int),
        decreases b@.len() - i,
    {
        v.push(b[i]);
        assert(b@.take(i as int + 1) =~= b@.take(i as int).push(b@[i as int]));
        i = i + 1;
    }
    assert(b@.take(i as int) =~= b@);
}


pub proof fn lemma_apply_bytes(o: Output, b: Seq<u8>)
    ensures
        apply_all(o, bytes_acts(b)) == (Output { parts: o.parts, plain: o.plain + b }),
    decreases b.len(),
{
    if b.len() == 0 {
        assert(o.plain + b =~= o.plain);
    } else {
        assert(bytes_acts(b).drop_last() =~= bytes_acts(b.drop_last()));
        lemma_apply_bytes(o, b.drop_last());
        assert(o.plain + b.drop_last() + seq![b.last()] =~= o.plain + b);
        assert((o.plain + b.drop_last()).push(b.last()) =~= o.plain + b);
    }
}

pub proof fn lemma_apply_one(o: Output, a: Act)
    ensures
        apply_all(o, seq![a]) == apply(o, a),
{
    assert(seq![a].drop_last() =~= Seq::<Act>::empty());
    assert(apply_all(o, Seq::<Act>::empty()) == o);
}

pub proof fn lemma_apply_two(o: Output, a: Act, b: Act)
    ensures
        apply_all(o, seq![a, b]) == apply(apply(o, a), b),
{
    assert(seq![a, b].drop_last() =~= seq![a]);
    lemma_apply_one(o, a);
}

pub proof fn lemma_apply_push(o: Output, acts: Seq<Act>, a: Act)
    ensures
        apply_all(o, acts.push(a)) == apply(apply_all(o, acts), a),
{
    assert(acts.push(a).drop_last() =~= acts);
}

fn emit_bytes(plain: &mut Vec<u8>, b: &[u8])
    ensures
        final(plain)@ == old(plain)@ + b@,
{
    append_bytes(plain, b);
}

fn flush(plain: &mut Vec<u8>, parts: &mut Vec<Part>)
    ensures
        (Output { parts: part_views(final(parts)@), plain: final(plain)@ }) == apply(Output { parts: part_views(old(parts)@), plain: old(plain)@ }, Act::Flush),
{
    if plain.len() > 0 {
        let mut d: Vec<u8> = Vec::new();
        std::mem::swap(&mut d, plain);
        let ghost dv = d@;
        let ghost before = part_views(parts@);
        parts.push(Part::Data(d));
        assert(part_views(parts@) =~= before.push(PartView::Data(dv)));
    }
}

fn bytes_equal(a: &[u8], b: &[u8]) -> (r: bool)
    ensures
        r == (a@ == b@),
{
    if a.len() != b.len() {
        return false;
    }
    let mut i: usize = 0;
    while i < a.len()
        invariant
            a@.len() == b@.len(),
            i <= a@.len(),
            forall|j: int| 0 <= j < i ==> a@[j] == b@[j],
        decreases a@.len() - i,
    {
        if a[i] != b[i] {
            return false;
        }
        i = i + 1;
    }
    assert(a@ =~= b@);
    true
}

/// Whether `s[from..]` starts with `p`.
fn starts_at(s: &Vec<u8>, from: usize, to: usize, p: &Vec<u8>) -> (r: bool)
    requires
        from <= to <= s@.len(),
    ensures
        r == bytes_start_with(s@.subrange(from as int, to as int), p@),
{
    if p.len() > to - from {
        return false;
    }
    let mut k: usize = 0;
    while k < p.len()
        invariant
            from + p@.len() <= to <= s@.len(),
            k <= p@.len(),
            forall|j: int| 0 <= j < k ==> s@[from + j] == p@[j],
        decreases p@.len() - k,
    {
        if s[from + k] != p[k] {
            assert(s@.subrange(from as int, to as int).take(p@.len() as int)[k as int] != p@[k as int]);
            return false;
        }
        k = k + 1;
    }
    assert(s@.subrange(from as int, to as int).take(p@.len() as int) =~= p@);
    true
}

impl Decoder {
    fn step(&mut self, b: u8, plain: &mut Vec<u8>, parts: &mut Vec<Part>)
        requires
            old(self).wf(),
        ensures
            final(self).wf(),
            final(self).spec_token() == old(self).spec_token(),
            ({
                let (s2, p2, acts) = machine_step(old(self).spec_state(), old(self).spec_pending(), b, old(self).spec_token());
                &&& final(self).spec_state() == s2
                &&& final(self).spec_pending() == p2
                &&& (Output { parts: part_views(final(parts)@), plain: final(plain)@ }) == apply_all(Output { parts: part_views(old(parts)@), plain: old(plain)@ }, acts)
            }),
    {
        let ghost o = Output { parts: part_views(parts@), plain: plain@ };
        let ghost tok = self.spec_token();
        let ghost pend = self.pending@;
        if self.state == 0 {
            if b == 0x1b {
                self.pending.push(b);
                self.state = 1;
                assert(self.pending@ =~= seq![0x1bu8]);
            } else {
                plain.push(b);
                proof {
                    lemma_apply_one(o, Act::Byte(b));
                }
            }
        } else if self.state == 1 {
            if b == 0x5d {
                self.pending.push(b);
                self.state = 2;
            } else if b == 0x5b {
                self.pending.push(b);
                self.state = 3;
            } else {
                emit_bytes(plain, self.pending.as_slice());
                proof {
                    lemma_apply_bytes(o, pend);
                }
                self.pending = Vec::new();
                if b == 0x1b {
                    self.pending.push(b);
                    assert(self.pending@ =~= seq![b]);
                } else {
                    let ghost o1 = Output { parts: part_views(parts@), plain: plain@ };
                    plain.push(b);
                    self.state = 0;
                    proof {
                        lemma_apply_push(o, bytes_acts(pend), Act::Byte(b));
                    }
                }
            }
        } else if self.state == 3 {
            self.pending.push(b);
            let n = self.pending.len();
            if (0x40 <= b && b <= 0x7e) || n > 4096 {
                let plain_query = n == 4 && self.pending[0] == 0x1b && self.pending[1] == 0x5b && self.pending[2] == 0x36
                    && self.pending[3] == 0x6e;
                let dec_query = n == 5 && self.pending[0] == 0x1b && self.pending[1] == 0x5b && self.pending[2] == 0x3f
                    && self.pending[3] == 0x36 && self.pending[4] == 0x6e;
                proof {
                    let p = self.pending@;
                    if plain_query {
                        assert(p =~= cursor_query());
                    } else if p == cursor_query() {
                        assert(p[0] == 0x1b && p[1] == 0x5b && p[2] == 0x36 && p[3] == 0x6e);
                    }
                    if dec_query {
                        assert(p =~= dec_cursor_query());
                    } else if p == dec_cursor_query() {
                        assert(p[0] == 0x1b && p[1] == 0x5b && p[2] == 0x3f && p[3] == 0x36 && p[4] == 0x6e);
                    }
                    assert(cursor_query() != dec_cursor_query()) by {
                        assert(cursor_query().len() != dec_cursor_query().len());
                    }
                }
                if plain_query || dec_query {
                    flush(plain, parts);
                    let ghost o1 = Output { parts: part_views(parts@), plain: plain@ };
                    let ghost before = part_views(parts@);
                    parts.push(Part::CursorQuery(dec_query));
                    assert(part_views(parts@) =~= before.push(PartView::CursorQuery(dec_query)));
                    proof {
                        lemma_apply_two(o, Act::Flush, Act::Query(dec_query));
                    }
                } else {
                    emit_bytes(plain, self.pending.as_slice());
                    proof {
                        lemma_apply_bytes(o, self.pending@);
                    }
                }
                self.pending = Vec::new();
                self.state = 0;
            }
        } else {
            self.pending.push(b);
            let n = self.pending.len();
            let bel = b == 7;
            let st = n >= 2 && self.pending[n - 2] == 0x1b && self.pending[n - 1] == 0x5c;
            if bel || st {
                let end: usize = n - if bel { 1 } else { 2 };
                assert(end >= 2);
                let plen = self.prefix.len();
                if starts_at(&self.pending, 2, end, &self.prefix) {
                    flush(plain, parts);
                    let json = crate::paths::copy_bytes(&self.pending, 2 + plen, end);
                    proof {
                        assert(json@ =~= self.pending@.subrange(2, end as int).skip(plen as int));
                    }
                    if is_json_document(json.as_slice()) {
                        let ghost jv = json@;
                        let ghost before = part_views(parts@);
                        parts.push(Part::Message(json));
                        assert(part_views(parts@) =~= before.push(PartView::Message(jv)));
                        proof {
                            lemma_apply_two(o, Act::Flush, Act::Message(jv));
                        }
                    } else {
                        proof {
                            lemma_apply_one(o, Act::Flush);
                        }
                    }
                } else {
                    emit_bytes(plain, self.pending.as_slice());
                    proof {
                        lemma_apply_bytes(o, self.pending@);
                    }
                }
                self.pending = Vec::new();
                self.state = 0;
            } else if n > 1048576 && (!starts_at(&self.pending, 0, n, &self.private) || n > 33554432) {
                proof {
                    assert(self.pending@.subrange(0, n as int) =~= self.pending@);
                }
                emit_bytes(plain, self.pending.as_slice());
                proof {
                    lemma_apply_bytes(o, self.pending@);
                }
                self.pending = Vec::new();
                self.state = 0;
            } else {
                proof {
                    if n > 1048576 {
                        assert(self.pending@.subrange(0, n as int) =~= self.pending@);
                    }
                }
                self.state = 2;
            }
        }
    }

    /// Decode the next chunk of terminal output. Chunks may split sequences
    /// anywhere; an unfinished sequence is held back for the next chunk.
    pub fn feed(&mut self, data: &[u8]) -> (r: Vec<Part>)
        requires
            old(self).wf(),
        ensures
            final(self).wf(),
            final(self).spec_token() == old(self).spec_token(),
            ({
                let (s, p, o) = decode_run(old(self).spec_state(), old(self).spec_pending(), data@, old(self).spec_token());
                &&& final(self).spec_state() == s
                &&& final(self).spec_pending() == p
                &&& part_views(r@) == fed_parts(o)
            }),
    {
        let mut parts: Vec<Part> = Vec::new();
        let mut plain: Vec<u8> = Vec::new();
        let ghost s0 = self.spec_state();
        let ghost p0 = self.spec_pending();
        let ghost tok = self.spec_token();
        let mut i: usize = 0;
        assert(part_views(parts@) =~= Seq::<PartView>::empty());
        assert(data@.take(0) =~= Seq::<u8>::empty());
        while i < data.len()
            invariant
                self.wf(),
                self.spec_token() == tok,
                i <= data@.len(),
                ({
                    let (s, p, o) = decode_run(s0, p0, data@.take(i as int), tok);
                    &&& self.spec_state() == s
                    &&& self.spec_pending() == p
                    &&& o == (Output { parts: part_views(parts@), plain: plain@ })
                }),
            decreases data@.len() - i,
        {
            assert(data@.take(i as int + 1).drop_last() =~= data@.take(i as int));
            self.step(data[i], &mut plain, &mut parts);
            i = i + 1;
        }
        assert(data@.take(i as int) =~= data@);
        if plain.len() > 0 {
            let ghost pv = plain@;
            let ghost before = part_views(parts@);
            parts.push(Part::Data(plain));
            assert(part_views(parts@) =~= before.push(PartView::Data(pv)));
        }
        parts
    }
}


/// What a decoder reports, one item per data byte, message or query,
/// however it was cut into parts.
pub enum Event {
    Byte(u8),
    Message(Seq<u8>),
    Query(bool),
}

pub open spec fn byte_events(d: Seq<u8>) -> Seq<Event> {
    d.map_values(|x: u8| Event::Byte(x))
}

/// The items of a list of parts.
pub open spec fn events(parts: Seq<PartView>) -> Seq<Event>
    decreases parts.len(),
{
    if parts.len() == 0 {
        Seq::empty()
    } else {
        events(parts.drop_last()) + match parts.last() {
            PartView::Data(d) => byte_events(d),
            PartView::Message(m) => seq![Event::Message(m)],
            PartView::CursorQuery(q) => seq![Event::Query(q)],
        }
    }
}

/// The items of an output: its parts, then its data not yet made a part.
pub open spec fn output_events(o: Output) -> Seq<Event> {
    events(o.parts) + byte_events(o.plain)
}

/// The items an act adds.
pub open spec fn act_events(acts: Seq<Act>) -> Seq<Event>
    decreases acts.len(),
{
    if acts.len() == 0 {
        Seq::empty()
    } else {
        act_events(acts.drop_last()) + match acts.last() {
            Act::Byte(x) => seq![Event::Byte(x)],
            Act::Flush => Seq::empty(),
            Act::Message(m) => seq![Event::Message(m)],
            Act::Query(q) => seq![Event::Query(q)],
        }
    }
}

proof fn lemma_flushed_events(o: Output)
    ensures
        output_events(flushed(o)) == output_events(o),
        flushed(o).plain.len() == 0,
{
    if o.plain.len() > 0 {
        assert(o.parts.push(PartView::Data(o.plain)).drop_last() =~= o.parts);
        assert(byte_events(Seq::<u8>::empty()) =~= Seq::<Event>::empty());
        assert(output_events(flushed(o)) =~= output_events(o));
    }
}

proof fn lemma_apply_events(o: Output, acts: Seq<Act>)
    ensures
        output_events(apply_all(o, acts)) == output_events(o) + act_events(acts),
    decreases acts.len(),
{
    if acts.len() == 0 {
        assert(output_events(o) + act_events(acts) =~= output_events(o));
    } else {
        lemma_apply_events(o, acts.drop_last());
        let p = apply_all(o, acts.drop_last());
        let a = acts.last();
        let tail = match a {
            Act::Byte(x) => seq![Event::Byte(x)],
            Act::Flush => Seq::<Event>::empty(),
            Act::Message(m) => seq![Event::Message(m)],
            Act::Query(q) => seq![Event::Query(q)],
        };
        assert(act_events(acts) == act_events(acts.drop_last()) + tail);
        lemma_flushed_events(p);
        let f = flushed(p);
        match a {
            Act::Byte(x) => {
                assert(byte_events(p.plain.push(x)) =~= byte_events(p.plain).push(Event::Byte(x)));
                assert(output_events(apply(p, a)) =~= output_events(p) + tail);
            },
            Act::Flush => {
                assert(output_events(apply(p, a)) =~= output_events(p) + tail);
            },
            Act::Message(m) => {
                assert(f.parts.push(PartView::Message(m)).drop_last() =~= f.parts);
                assert(byte_events(f.plain) =~= Seq::<Event>::empty());
                assert(output_events(f) =~= events(f.parts));
                assert(output_events(apply(p, a)) =~= output_events(p) + tail);
            },
            Act::Query(q) => {
                assert(f.parts.push(PartView::CursorQuery(q)).drop_last() =~= f.parts);
                assert(byte_events(f.plain) =~= Seq::<Event>::empty());
                assert(output_events(f) =~= events(f.parts));
                assert(output_events(apply(p, a)) =~= output_events(p) + tail);
            },
        }
        assert(output_events(apply_all(o, acts)) =~= output_events(o) + act_events(acts));
    }
}

proof fn lemma_fed_events(o: Output)
    ensures
        events(fed_parts(o)) == output_events(o),
{
    if o.plain.len() > 0 {
        assert(o.parts.push(PartView::Data(o.plain)).drop_last() =~= o.parts);
    } else {
        assert(byte_events(o.plain) =~= Seq::<Event>::empty());
        assert(output_events(o) =~= events(o.parts));
    }
}

proof fn lemma_run_concat(state: u8, pending: Seq<u8>, a: Seq<u8>, b: Seq<u8>, token: Seq<u8>)
    ensures
        ({
            let (sa, pa, oa) = decode_run(state, pending, a, token);
            let (sb, pb, ob) = decode_run(sa, pa, b, token);
            let (s, p, o) = decode_run(state, pending, a + b, token);
            &&& s == sb
            &&& p == pb
            &&& output_events(o) == output_events(oa) + output_events(ob)
        }),
    decreases b.len(),
{
    let (sa, pa, oa) = decode_run(state, pending, a, token);
    if b.len() == 0 {
        assert(a + b =~= a);
        assert(output_events(Output { parts: Seq::empty(), plain: Seq::empty() }) =~= Seq::<Event>::empty());
        assert(output_events(oa) + Seq::<Event>::empty() =~= output_events(oa));
    } else {
        lemma_run_concat(state, pending, a, b.drop_last(), token);
        assert((a + b).drop_last() =~= a + b.drop_last());
        assert((a + b).last() == b.last());
        let (s1, p1, o1) = decode_run(state, pending, a + b.drop_last(), token);
        let (sb1, pb1, ob1) = decode_run(sa, pa, b.drop_last(), token);
        let (s2, p2, acts) = machine_step(s1, p1, b.last(), token);
        lemma_apply_events(o1, acts);
        lemma_apply_events(ob1, acts);
        let (s, p, o) = decode_run(state, pending, a + b, token);
        let (sb, pb, ob) = decode_run(sa, pa, b, token);
        assert(output_events(o) =~= output_events(oa) + output_events(ob));
    }
}

/// Chunking does not matter: decoding `a` and then `b` yields the same
/// data bytes, messages and cursor queries, in the same order, as decoding
/// `a` followed by `b` in one chunk, and leaves the decoder in the same
/// state.
pub proof fn law_chunking_is_invisible(state: u8, pending: Seq<u8>, a: Seq<u8>, b: Seq<u8>, token: Seq<u8>)
    ensures
        ({
            let (sa, pa, oa) = decode_run(state, pending, a, token);
            let (sb, pb, ob) = decode_run(sa, pa, b, token);
            let (s, p, o) = decode_run(state, pending, a + b, token);
            &&& s == sb
            &&& p == pb
            &&& events(fed_parts(oa)) + events(fed_parts(ob)) == events(fed_parts(o))
        }),
{
    lemma_run_concat(state, pending, a, b, token);
    let (sa, pa, oa) = decode_run(state, pending, a, token);
    let (sb, pb, ob) = decode_run(sa, pa, b, token);
    let (s, p, o) = decode_run(state, pending, a + b, token);
    lemma_fed_events(oa);
    lemma_fed_events(ob);
    lemma_fed_events(o);
}

proof fn lemma_plain_run(data: Seq<u8>, token: Seq<u8>)
    requires
        forall|i: int| 0 <= i < data.len() ==> data[i] != 0x1b,
    ensures
        decode_run(0, Seq::empty(), data, token) == (0u8, Seq::<u8>::empty(), Output { parts: Seq::empty(), plain: data }),
    decreases data.len(),
{
    if data.len() > 0 {
        lemma_plain_run(data.drop_last(), token);
        lemma_apply_one(Output { parts: Seq::empty(), plain: data.drop_last() }, Act::Byte(data.last()));
        assert(data.drop_last().push(data.last()) =~= data);
    } else {
        assert(data =~= Seq::<u8>::empty());
    }
}

/// Text without escape bytes passes through unchanged: decoded from the
/// text state it is one data part (none when empty), and the decoder
/// stays in the text state.
pub proof fn law_plain_text_passes_through(data: Seq<u8>, token: Seq<u8>)
    requires
        forall|i: int| 0 <= i < data.len() ==> data[i] != 0x1b,
    ensures
        ({
            let (s, p, o) = decode_run(0, Seq::empty(), data, token);
            &&& s == 0
            &&& p.len() == 0
            &&& fed_parts(o) == if data.len() > 0 { seq![PartView::Data(data)] } else { Seq::empty() }
        }),
{
    lemma_plain_run(data, token);
    assert(Seq::<PartView>::empty().push(PartView::Data(data)) =~= seq![PartView::Data(data)]);
}


/// `pat` occurs in `s`.
pub open spec fn occurs(s: Seq<u8>, pat: Seq<u8>) -> bool {
    exists|i: int| 0 <= i && i + pat.len() <= s.len() && #[trigger] s.subrange(i, i + pat.len()) == pat
}

/// Output that the decoder passes on untouched: it holds no private
/// message prefix `ESC ] 7776;TOKEN;` and no cursor position query.
pub open spec fn passes_through(s: Seq<u8>, token: Seq<u8>) -> bool {
    &&& !occurs(s, private_prefix(token))
    &&& !occurs(s, cursor_query())
    &&& !occurs(s, dec_cursor_query())
}

/// The bytes of the data parts, in order.
pub open spec fn data_of(parts: Seq<PartView>) -> Seq<u8>
    decreases parts.len(),
{
    if parts.len() == 0 {
        Seq::empty()
    } else {
        data_of(parts.drop_last()) + match parts.last() {
            PartView::Data(d) => d,
            _ => Seq::empty(),
        }
    }
}

/// The parts of feeding `chunks` one after another, and the decoder's
/// state and held-back bytes afterwards.
pub open spec fn feed_chunks(state: u8, pending: Seq<u8>, chunks: Seq<Seq<u8>>, token: Seq<u8>) -> (u8, Seq<u8>, Seq<PartView>)
    decreases chunks.len(),
{
    if chunks.len() == 0 {
        (state, pending, Seq::empty())
    } else {
        let (s, p, parts) = feed_chunks(state, pending, chunks.drop_last(), token);
        let (s2, p2, o) = decode_run(s, p, chunks.last(), token);
        (s2, p2, parts + fed_parts(o))
    }
}

/// All bytes of a list of chunks.
pub open spec fn concat_chunks(chunks: Seq<Seq<u8>>) -> Seq<u8>
    decreases chunks.len(),
{
    if chunks.len() == 0 { Seq::empty() } else { concat_chunks(chunks.drop_last()) + chunks.last() }
}

proof fn lemma_byte_events_concat(a: Seq<u8>, b: Seq<u8>)
    ensures
        byte_events(a + b) == byte_events(a) + byte_events(b),
{
    assert(byte_events(a + b) =~= byte_events(a) + byte_events(b));
}

proof fn lemma_events_concat(a: Seq<PartView>, b: Seq<PartView>)
    ensures
        events(a + b) == events(a) + events(b),
    decreases b.len(),
{
    if b.len() == 0 {
        assert(a + b =~= a);
        assert(events(a) + events(b) =~= events(a));
    } else {
        lemma_events_concat(a, b.drop_last());
        assert((a + b).drop_last() =~= a + b.drop_last());
        assert((a + b).last() == b.last());
        assert(events(a + b) =~= events(a) + events(b));
    }
}

proof fn lemma_occurs_prefix(s: Seq<u8>, n: int, pat: Seq<u8>)
    requires
        0 <= n <= s.len(),
        occurs(s.take(n), pat),
    ensures
        occurs(s, pat),
{
    let i = choose|i: int| 0 <= i && i + pat.len() <= s.take(n).len() && #[trigger] s.take(n).subrange(i, i + pat.len()) == pat;
    assert(s.subrange(i, i + pat.len()) =~= s.take(n).subrange(i, i + pat.len()));
}

proof fn lemma_occurs_at_end(s: Seq<u8>, pat: Seq<u8>)
    requires
        pat.len() <= s.len(),
        s.skip(s.len() - pat.len()) == pat,
    ensures
        occurs(s, pat),
{
    let i = s.len() - pat.len();
    assert(s.subrange(i, i + pat.len()) =~= s.skip(i));
}

/// Decoding output that passes through from the text state: the data
/// parts and the bytes still held back are the output itself.
proof fn lemma_unknown_run(data: Seq<u8>, token: Seq<u8>)
    requires
        passes_through(data, token),
    ensures
        ({
            let (st, p, o) = decode_run(0, Seq::empty(), data, token);
            &&& held_back(st, p)
            &&& p.len() <= data.len()
            &&& p == data.skip(data.len() - p.len())
            &&& output_events(o) == byte_events(data.take(data.len() - p.len()))
        }),
    decreases data.len(),
{
    if data.len() == 0 {
        assert(output_events(Output { parts: Seq::empty(), plain: Seq::empty() }) =~= Seq::<Event>::empty());
        assert(byte_events(data.take(0)) =~= Seq::<Event>::empty());
        assert(data.skip(0) =~= Seq::<u8>::empty());
    } else {
        let d = data.drop_last();
        let b = data.last();
        let n = data.len() as int;
        assert(d =~= data.take(n - 1));
        if occurs(d, private_prefix(token)) { lemma_occurs_prefix(data, n - 1, private_prefix(token)); }
        if occurs(d, cursor_query()) { lemma_occurs_prefix(data, n - 1, cursor_query()); }
        if occurs(d, dec_cursor_query()) { lemma_occurs_prefix(data, n - 1, dec_cursor_query()); }
        lemma_unknown_run(d, token);
        let (st, p, o) = decode_run(0, Seq::empty(), d, token);
        let (st2, p2, acts) = machine_step(st, p, b, token);
        let q = p.push(b);
        let k = d.len() - p.len();
        assert(held_back(st2, p2)) by {
            if st == 0 {
                assert(p =~= Seq::<u8>::empty());
                assert(q =~= seq![0x1bu8] || b != 0x1b);
            }
        }
        assert(q =~= data.skip(n - q.len()));
        assert(d.take(k) =~= data.take(k));
        assert(data.take(n) =~= data);
        // what the step hands on is either nothing, or exactly the bytes it held back
        if acts.len() > 0 {
            let x = if st == 1 && b == 0x1b { p } else { q };
            assert(acts == bytes_acts(x)) by {
                if st == 3 && (((0x40 <= b && b <= 0x7e) || q.len() > 4096)) {
                    if q == cursor_query() || q == dec_cursor_query() {
                        lemma_occurs_at_end(data, q);
                        assert(false);
                    }
                } else if st == 2 {
                    let bel = b == 7;
                    let stt = q.len() >= 2 && q[q.len() - 2] == 0x1b && q.last() == 0x5c;
                    if bel || stt {
                        let end = q.len() - if bel { 1int } else { 2int };
                        let content = q.subrange(2, end);
                        let prefix = message_prefix(token);
                        if bytes_start_with(content, prefix) {
                            let pp = private_prefix(token);
                            assert(q.take(pp.len() as int) =~= pp);
                            let i = n - q.len();
                            assert(data.subrange(i, i + pp.len()) =~= q.take(pp.len() as int));
                            assert(false);
                        }
                    }
                } else if st == 0 {
                    assert(acts =~= bytes_acts(q));
                } else if st == 1 {
                    if b == 0x1b {
                        assert(acts =~= bytes_acts(p));
                    } else {
                        assert(acts =~= bytes_acts(q));
                    }
                }
            }
            lemma_apply_bytes(o, x);
            lemma_byte_events_concat(o.plain, x);
            let o2 = apply_all(o, acts);
            assert(output_events(o2) == output_events(o) + byte_events(x));
            if st == 1 && b == 0x1b {
                assert(p2 =~= seq![b]);
                assert(data.take(n - 1) + Seq::<u8>::empty() =~= d);
                lemma_byte_events_concat(d.take(k), x);
                assert(d.take(k) + p =~= d);
                assert(data.take(n - p2.len()) =~= d);
                assert(p2 =~= data.skip(n - 1));
            } else {
                lemma_byte_events_concat(d.take(k), q);
                assert(d.take(k) + q =~= data);
                assert(p2.len() == 0);
                assert(data.skip(n) =~= Seq::<u8>::empty());
            }
        } else {
            assert(apply_all(o, acts) == o);
            assert(p2 == q);
            assert(data.take(n - p2.len()) =~= d.take(k));
        }
    }
}

proof fn lemma_all_bytes(parts: Seq<PartView>, x: Seq<u8>)
    requires
        events(parts) == byte_events(x),
    ensures
        forall|i: int| 0 <= i < parts.len() ==> (#[trigger] parts[i]) is Data,
        data_of(parts) == x,
    decreases parts.len(),
{
    if parts.len() == 0 {
        assert(x.len() == byte_events(x).len());
        assert(x =~= Seq::<u8>::empty());
    } else {
        let ps = parts.drop_last();
        let tail = match parts.last() {
            PartView::Data(d) => byte_events(d),
            PartView::Message(m) => seq![Event::Message(m)],
            PartView::CursorQuery(q) => seq![Event::Query(q)],
        };
        assert(events(parts) == events(ps) + tail);
        let ev = byte_events(x);
        match parts.last() {
            PartView::Data(d) => {
                let k = x.len() - d.len();
                assert(events(ps) =~= ev.take(k));
                assert(ev.take(k) =~= byte_events(x.take(k)));
                lemma_all_bytes(ps, x.take(k));
                assert forall|j: int| 0 <= j < d.len() implies d[j] == x.skip(k)[j] by {
                    assert(ev[k + j] == tail[j]);
                }
                assert(d =~= x.skip(k));
                assert(x.take(k) + x.skip(k) =~= x);
                assert forall|i: int| 0 <= i < parts.len() implies (#[trigger] parts[i]) is Data by {
                    if i < ps.len() {
                        assert(parts[i] == ps[i]);
                    }
                }
            },
            PartView::Message(m) => {
                assert(ev[ev.len() - 1] == Event::Message(m));
                assert(false);
            },
            PartView::CursorQuery(q) => {
                assert(ev[ev.len() - 1] == Event::Query(q));
                assert(false);
            },
        }
    }
}

proof fn lemma_feed_chunks(state: u8, pending: Seq<u8>, chunks: Seq<Seq<u8>>, token: Seq<u8>)
    ensures
        ({
            let (s, p, parts) = feed_chunks(state, pending, chunks, token);
            let (s1, p1, o) = decode_run(state, pending, concat_chunks(chunks), token);
            &&& s == s1
            &&& p == p1
            &&& events(parts) == output_events(o)
        }),
    decreases chunks.len(),
{
    if chunks.len() == 0 {
        assert(events(Seq::<PartView>::empty()) =~= Seq::<Event>::empty());
        assert(output_events(Output { parts: Seq::empty(), plain: Seq::empty() }) =~= Seq::<Event>::empty());
    } else {
        lemma_feed_chunks(state, pending, chunks.drop_last(), token);
        let (s, p, parts) = feed_chunks(state, pending, chunks.drop_last(), token);
        let (s2, p2, o) = decode_run(s, p, chunks.last(), token);
        lemma_run_concat(state, pending, concat_chunks(chunks.drop_last()), chunks.last(), token);
        lemma_events_concat(parts, fed_parts(o));
        lemma_fed_events(o);
    }
}

/// Unknown terminal controls pass through byte for byte: when the output
/// fed to a fresh decoder, in any chunks, holds no private message prefix
/// and no cursor position query, every part returned is data, and the
/// data of all feeds followed by what `finish` hands back is the output.
pub proof fn law_unknown_controls_pass_through(chunks: Seq<Seq<u8>>, token: Seq<u8>)
    requires
        passes_through(concat_chunks(chunks), token),
    ensures
        ({
            let (s, p, parts) = feed_chunks(0, Seq::empty(), chunks, token);
            &&& forall|i: int| 0 <= i < parts.len() ==> (#[trigger] parts[i]) is Data
            &&& data_of(parts) + p == concat_chunks(chunks)
        }),
{
    let all = concat_chunks(chunks);
    lemma_feed_chunks(0, Seq::empty(), chunks, token);
    lemma_unknown_run(all, token);
    let (s, p, parts) = feed_chunks(0, Seq::empty(), chunks, token);
    let (s1, p1, o) = decode_run(0, Seq::empty(), all, token);
    lemma_all_bytes(parts, all.take(all.len() - p.len()));
    assert(all.take(all.len() - p.len()) + all.skip(all.len() - p.len()) =~= all);
}

/// The UTF-16 offset of a UTF-8 byte offset that is a character boundary.
pub open spec fn utf16_offset(s: Seq<char>, byte: int) -> Option<int> {
    if is_utf8_boundary(s, byte) {
        Some(utf16_len(s.take(choose|i: int| 0 <= i <= s.len() && utf8_len(#[trigger] s.take(i)) == byte)) as int)
    } else {
        None
    }
}

/// A boundary found at a byte offset is the one [`utf16_offset`] names.
pub proof fn lemma_utf16_offset(s: Seq<char>, byte: int, u: int)
    requires
        utf16_boundary_at_byte(s, u, byte),
    ensures
        utf16_offset(s, byte) == Some(u),
{
    let i = choose|i: int| 0 <= i <= s.len() && utf16_len(#[trigger] s.take(i)) == u && utf8_len(s.take(i)) == byte;
    assert(is_utf8_boundary(s, byte)) by {
        assert(utf8_len(s.take(i)) == byte);
    }
    let j = choose|j: int| 0 <= j <= s.len() && utf8_len(#[trigger] s.take(j)) == byte;
    if i < j {
        lemma_prefix_lengths_monotone(s, i, j);
    } else if j < i {
        lemma_prefix_lengths_monotone(s, j, i);
    }
}

/// UTF-16 offsets keep the order of the byte offsets they stand for.
pub proof fn lemma_utf16_offset_monotone(s: Seq<char>, a: int, b: int)
    requires
        a <= b,
        utf16_offset(s, a) is Some,
        utf16_offset(s, b) is Some,
    ensures
        utf16_offset(s, a)->Some_0 <= utf16_offset(s, b)->Some_0,
        utf16_offset(s, b)->Some_0 - utf16_offset(s, a)->Some_0 <= b - a,
{
    let i = choose|i: int| 0 <= i <= s.len() && utf8_len(#[trigger] s.take(i)) == a;
    let j = choose|j: int| 0 <= j <= s.len() && utf8_len(#[trigger] s.take(j)) == b;
    if j < i {
        lemma_prefix_lengths_monotone(s, j, i);
    } else {
        lemma_prefix_lengths_monotone(s, i, j);
    }
}


/// UTF-16 and UTF-8 offsets of a line correspond one to one: a UTF-16
/// offset names at most one byte offset and a byte offset at most one
/// UTF-16 offset, so converting one way and back gives the offset again.
pub proof fn law_offsets_correspond(s: Seq<char>, u: int, b: int, u2: int, b2: int)
    requires
        utf16_boundary_at_byte(s, u, b),
        utf16_boundary_at_byte(s, u2, b2),
    ensures
        (u == u2) <==> (b == b2),
        utf16_offset(s, b) == Some(u),
{
    lemma_utf16_offset(s, b, u);
    let i = choose|i: int| 0 <= i <= s.len() && utf16_len(#[trigger] s.take(i)) == u && utf8_len(s.take(i)) == b;
    let j = choose|j: int| 0 <= j <= s.len() && utf16_len(#[trigger] s.take(j)) == u2 && utf8_len(s.take(j)) == b2;
    if i < j {
        lemma_prefix_lengths_monotone(s, i, j);
    } else if j < i {
        lemma_prefix_lengths_monotone(s, j, i);
    }
}

} // verus!
