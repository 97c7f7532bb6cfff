//! Framing of the server-sent-event body of a streaming completion: the
//! buffer that collects decoded network chunks, cuts out `data: ` events and
//! hands back the JSON text of each event.
use vstd::prelude::*;
use vstd::string::StringSliceAdditionalSpecFns;
use vstd::utf8::*;

use crate::text::{
    concat, from_utf8_lossy, push_str, utf8_lossy, lemma_ascii_is_boundary, lemma_boundary_after_ascii_run, lemma_str_bytes, lemma_encode_utf8_concat, str_trim, substr,
    trim_ws, trim_start_ws, trim_end_ws, is_white_space,
};

verus! {

broadcast use vstd::utf8::group_utf8_lib;

/// The bytes of the event marker `data: `.
pub open spec fn data_marker() -> Seq<u8> {
    seq![0x64u8, 0x61u8, 0x74u8, 0x61u8, 0x3au8, 0x20u8]
}

/// The characters of the end-of-stream payload `[DONE]`.
pub open spec fn done_text() -> Seq<char> {
    seq!['[', 'D', 'O', 'N', 'E', ']']
}

/// The marker starts at byte `i` of `b`.
pub open spec fn marker_at(b: Seq<u8>, i: int) -> bool {
    0 <= i && i + 6 <= b.len() && b.subrange(i, i + 6) == data_marker()
}

/// The first byte offset at or after `from` where the marker starts
/// (`str::find` of `data: ` in the text from `from` on).
pub open spec fn find_marker(b: Seq<u8>, from: int) -> Option<int>
    decreases b.len() - from,
{
    if from < 0 || from + 6 > b.len() {
        None
    } else if marker_at(b, from) {
        Some(from)
    } else {
        find_marker(b, from + 1)
    }
}

/// The events that one pass over the buffer `b` cuts out, as byte ranges,
/// starting from the offset `r` of the unprocessed rest, together with the
/// offset from which the buffer is kept for the next pass.
///
/// An event runs from a marker found in the rest to the next marker, shifted
/// by the distance between the start of the rest and the first marker, as the
/// pass computes it; the kept part starts at the last marker without a
/// successor.
pub open spec fn scan_events(b: Seq<u8>, r: int) -> (Seq<(int, int)>, int)
    decreases b.len() - r,
{
    if r < 0 || r > b.len() {
        (seq![], r)
    } else {
        match find_marker(b, r) {
            None => (seq![], r),
            Some(a) => match find_marker(b, a + 6) {
                None => (seq![], a),
                Some(n) => {
                    let end = n + (a - r);
                    if r < end && end <= b.len() {
                        let rest = scan_events(b, end);
                        (seq![(a, end)] + rest.0, rest.1)
                    } else {
                        (seq![(a, end)], end)
                    }
                },
            },
        }
    }
}

/// Every event end that a pass over `b` computes from `r` on lies inside the
/// buffer and on a character boundary, so that cutting the text there does
/// not panic.
pub open spec fn scan_ok(b: Seq<u8>, r: int) -> bool
    decreases b.len() - r,
{
    if r < 0 || r > b.len() {
        true
    } else {
        match find_marker(b, r) {
            None => true,
            Some(a) => match find_marker(b, a + 6) {
                None => true,
                Some(n) => {
                    let end = n + (a - r);
                    &&& r < end
                    &&& end <= b.len()
                    &&& is_char_boundary(b, end)
                    &&& scan_ok(b, end)
                },
            },
        }
    }
}

/// `b` with every leading repetition of the marker removed
/// (`str::trim_start_matches("data: ")`).
pub open spec fn strip_markers(b: Seq<u8>) -> Seq<u8>
    decreases b.len(),
{
    if marker_at(b, 0) {
        strip_markers(b.subrange(6, b.len() as int))
    } else {
        b
    }
}

/// The JSON text of one event: the event must start with the marker; the
/// text is what follows the leading markers, trimmed; `[DONE]` carries none.
pub open spec fn chunk_payload(event: Seq<u8>) -> Option<Seq<char>> {
    if !marker_at(event, 0) {
        None
    } else {
        let data = trim_ws(decode_utf8(strip_markers(event)));
        if data == done_text() {
            None
        } else {
            Some(data)
        }
    }
}

/// The JSON texts of the events `evs` of the buffer `b`, in order.
pub open spec fn event_payloads(b: Seq<u8>, evs: Seq<(int, int)>) -> Seq<Seq<char>>
    decreases evs.len(),
{
    if evs.len() == 0 {
        seq![]
    } else {
        let rest = event_payloads(b, evs.drop_last());
        match chunk_payload(b.subrange(evs.last().0, evs.last().1)) {
            Some(p) => rest.push(p),
            None => rest,
        }
    }
}

/// The pieces of `b` from `r` on between the markers (`str::split("data: ")`),
/// as byte ranges.
pub open spec fn split_pieces(b: Seq<u8>, r: int) -> Seq<(int, int)>
    decreases b.len() - r,
{
    if r < 0 || r > b.len() {
        seq![]
    } else {
        match find_marker(b, r) {
            None => seq![(r, b.len() as int)],
            Some(i) => if r <= i && i + 6 <= b.len() {
                seq![(r, i)] + split_pieces(b, i + 6)
            } else {
                seq![]
            },
        }
    }
}

/// The JSON texts of the pieces `ps` of `b`: empty pieces are dropped, the
/// others trimmed, and `[DONE]` left out.
pub open spec fn piece_payloads(b: Seq<u8>, ps: Seq<(int, int)>) -> Seq<Seq<char>>
    decreases ps.len(),
{
    if ps.len() == 0 {
        seq![]
    } else {
        let rest = piece_payloads(b, ps.drop_last());
        let (a, e) = ps.last();
        let data = trim_ws(decode_utf8(b.subrange(a, e)));
        if a == e || data == done_text() {
            rest
        } else {
            rest.push(data)
        }
    }
}

/// The JSON texts that the rest of a stream's body yields once the stream has
/// ended.
pub open spec fn buffer_payloads(b: Seq<u8>) -> Seq<Seq<char>> {
    piece_payloads(b, split_pieces(b, 0))
}

/// The views of a vector of strings.
pub open spec fn string_views(v: Seq<String>) -> Seq<Seq<char>> {
    v.map_values(|s: String| s@)
}

proof fn lemma_find_marker(b: Seq<u8>, from: int)
    requires
        0 <= from,
    ensures
        find_marker(b, from) matches Some(i) ==> from <= i && marker_at(b, i),
    decreases b.len() - from,
{
    if from + 6 <= b.len() && !marker_at(b, from) {
        lemma_find_marker(b, from + 1);
    }
}

proof fn lemma_marker_ascii(b: Seq<u8>, i: int)
    requires
        marker_at(b, i),
    ensures
        forall|k: int| i <= k < i + 6 ==> b[k] < 0x80,
{
    assert forall|k: int| i <= k < i + 6 implies b[k] < 0x80 by {
        assert(b[k] == b.subrange(i, i + 6)[k - i]);
    }
}

/// A marker starts a character, and so does the byte after it.
proof fn lemma_marker_boundaries(b: Seq<u8>, i: int)
    requires
        valid_utf8(b),
        marker_at(b, i),
    ensures
        is_char_boundary(b, i),
        is_char_boundary(b, i + 6),
{
    lemma_marker_ascii(b, i);
    lemma_ascii_is_boundary(b, i);
    lemma_boundary_after_ascii_run(b, i, 6);
}

fn marker_at_exec(b: &[u8], i: usize) -> (res: bool)
    requires
        i + 6 <= b@.len(),
    ensures
        res == marker_at(b@, i as int),
{
    let res = b[i] == 0x64 && b[i + 1] == 0x61 && b[i + 2] == 0x74 && b[i + 3] == 0x61 && b[i
        + 4] == 0x3a && b[i + 5] == 0x20;
    proof {
        let s = b@.subrange(i as int, i + 6);
        if res {
            assert(s =~= data_marker());
        } else {
            if s == data_marker() {
                assert(s[0] == b@[i as int]);
                assert(s[1] == b@[i + 1]);
                assert(s[2] == b@[i + 2]);
                assert(s[3] == b@[i + 3]);
                assert(s[4] == b@[i + 4]);
                assert(s[5] == b@[i + 5]);
            }
        }
    }
    res
}

fn find_marker_exec(b: &[u8], from: usize) -> (res: Option<usize>)
    requires
        from <= b@.len(),
    ensures
        match res {
            Some(i) => find_marker(b@, from as int) == Some(i as int),
            None => find_marker(b@, from as int) is None,
        },
{
    let len = b.len();
    let mut i = from;
    while len - i >= 6
        invariant
            from <= i <= len,
            len == b@.len(),
            find_marker(b@, from as int) == find_marker(b@, i as int),
        decreases len - i,
    {
        if marker_at_exec(b, i) {
            return Some(i);
        }
        i = i + 1;
    }
    None
}

/// True when the text is exactly `[DONE]`.
fn is_done(s: &str) -> (res: bool)
    ensures
        res == (s@ == done_text()),
{
    let b = s.as_bytes();
    let res = b.len() == 6 && b[0] == 0x5b && b[1] == 0x44 && b[2] == 0x4f && b[3] == 0x4e && b[4]
        == 0x45 && b[5] == 0x5d;
    proof {
        let d = done_text();
        assert(is_ascii_chars(d));
        is_ascii_chars_encode_utf8(d);
        let e = encode_utf8(d);
        assert(e[0] == 0x5b && e[1] == 0x44 && e[2] == 0x4f && e[3] == 0x4e && e[4] == 0x45 && e[5]
            == 0x5d);
        lemma_str_bytes(s);
        if res {
            assert(b@ =~= e);
            assert(s@ == decode_utf8(e));
        }
        if s@ == d {
            assert(b@ == e);
        }
    }
    res
}

/// The JSON text carried by one event, as `chunk_payload` defines it: `None`
/// for a text that does not start with `data: ` and for `[DONE]`.
pub fn parse_chunk_payload(text: &str) -> (res: Option<String>)
    ensures
        match res {
            Some(p) => chunk_payload(text.spec_bytes()) == Some(p@),
            None => chunk_payload(text.spec_bytes()) is None,
        },
{
    let b = text.as_bytes();
    let len = b.len();
    proof {
        lemma_str_bytes(text);
    }
    if len < 6 || !marker_at_exec(b, 0) {
        return None;
    }
    let mut k: usize = 0;
    proof {
        assert(b@.subrange(0, len as int) =~= b@);
    }
    while len - k >= 6 && marker_at_exec(b, k)
        invariant
            k <= len,
            len == b@.len(),
            b@ == text.spec_bytes(),
            valid_utf8(b@),
            is_char_boundary(b@, k as int),
            strip_markers(b@) == strip_markers(b@.subrange(k as int, len as int)),
        decreases len - k,
    {
        proof {
            let s = b@.subrange(k as int, len as int);
            assert(s.subrange(0, 6) =~= b@.subrange(k as int, k + 6));
            assert(s.subrange(6, s.len() as int) =~= b@.subrange(k + 6, len as int));
            lemma_marker_boundaries(b@, k as int);
        }
        k = k + 6;
    }
    proof {
        let s = b@.subrange(k as int, len as int);
        if k + 6 <= len {
            assert(s.subrange(0, 6) =~= b@.subrange(k as int, k + 6));
        }
    }
    let rest = substr(text, k, len);
    let data = str_trim(rest);
    if is_done(data) {
        None
    } else {
        Some(data.to_owned())
    }
}

/// The JSON texts that the end of a stream yields from its unprocessed
/// buffer: the text is split at each `data: `, empty pieces are dropped, the
/// others trimmed, and `[DONE]` left out.
pub fn process_buffer_payloads(buffer: &str) -> (res: Vec<String>)
    ensures
        string_views(res@) == buffer_payloads(buffer.spec_bytes()),
{
    let b = buffer.as_bytes();
    let len = b.len();
    proof {
        lemma_str_bytes(buffer);
    }
    let ghost bs = b@;
    let mut out: Vec<String> = Vec::new();
    let ghost mut ps: Seq<(int, int)> = seq![];
    let mut r: usize = 0;
    loop
        invariant
            r <= len,
            len == bs.len(),
            bs == b@,
            bs == buffer.spec_bytes(),
            valid_utf8(bs),
            is_char_boundary(bs, r as int),
            split_pieces(bs, 0) == ps + split_pieces(bs, r as int),
            string_views(out@) == piece_payloads(bs, ps),
        decreases len - r,
    {
        let found = find_marker_exec(b, r);
        proof {
            lemma_find_marker(bs, r as int);
        }
        let end = match found {
            Some(i) => i,
            None => len,
        };
        proof {
            if let Some(i) = found {
                lemma_marker_boundaries(bs, i as int);
            }
        }
        let ghost piece = (r as int, end as int);
        let ghost old_ps = ps;
        if end > r {
            let text = substr(buffer, r, end);
            let data = str_trim(text);
            if !is_done(data) {
                out.push(data.to_owned());
            }
        }
        proof {
            ps = ps.push(piece);
            assert(ps.drop_last() =~= old_ps);
            assert(ps.last() == piece);
            assert(string_views(out@) =~= piece_payloads(bs, ps));
        }
        match found {
            None => {
                proof {
                    assert(split_pieces(bs, r as int) == seq![piece]);
                    assert(split_pieces(bs, 0) =~= ps);
                }
                return out;
            },
            Some(i) => {
                proof {
                    assert(split_pieces(bs, r as int) == seq![piece] + split_pieces(bs, i + 6));
                    assert(split_pieces(bs, 0) =~= ps + split_pieces(bs, i + 6));
                }
                r = i + 6;
            },
        }
    }
}

/// One pass over the buffer `text`: the JSON texts of the events it cuts out
/// and the byte offset from which the buffer is kept, or `None` where cutting
/// an event would fall outside the text or inside a character.
fn scan_buffer(text: &str) -> (res: Option<(Vec<String>, usize)>)
    ensures
        res is Some <==> scan_ok(text.spec_bytes(), 0),
        res matches Some((ps, keep)) ==> {
            &&& string_views(ps@) == event_payloads(
                text.spec_bytes(),
                scan_events(text.spec_bytes(), 0).0,
            )
            &&& keep as int == scan_events(text.spec_bytes(), 0).1
            &&& keep <= text.spec_bytes().len()
            &&& is_char_boundary(text.spec_bytes(), keep as int)
        },
{
    let b = text.as_bytes();
    let len = b.len();
    proof {
        lemma_str_bytes(text);
    }
    let ghost bs = b@;
    let mut out: Vec<String> = Vec::new();
    let ghost mut evs: Seq<(int, int)> = seq![];
    let mut r: usize = 0;
    loop
        invariant
            r <= len,
            len == bs.len(),
            bs == b@,
            bs == text.spec_bytes(),
            valid_utf8(bs),
            is_char_boundary(bs, r as int),
            scan_events(bs, 0) == (evs + scan_events(bs, r as int).0, scan_events(bs, r as int).1),
            scan_ok(bs, 0) == scan_ok(bs, r as int),
            string_views(out@) == event_payloads(bs, evs),
        decreases len - r,
    {
        proof {
            lemma_find_marker(bs, r as int);
        }
        let a = match find_marker_exec(b, r) {
            None => {
                proof {
                    assert(evs + seq![] =~= evs);
                }
                return Some((out, r));
            },
            Some(a) => a,
        };
        proof {
            lemma_marker_boundaries(bs, a as int);
            lemma_find_marker(bs, a + 6);
        }
        let n = match find_marker_exec(b, a + 6) {
            None => {
                proof {
                    assert(evs + seq![] =~= evs);
                }
                return Some((out, a));
            },
            Some(n) => n,
        };
        if n > len - (a - r) {
            return None;
        }
        let end = n + (a - r);
        if !text.is_char_boundary(end) {
            return None;
        }
        let event = substr(text, a, end);
        let ghost old_evs = evs;
        match parse_chunk_payload(event) {
            Some(p) => out.push(p),
            None => {},
        }
        proof {
            evs = evs.push((a as int, end as int));
            assert(evs.drop_last() =~= old_evs);
            assert(string_views(out@) =~= event_payloads(bs, evs));
            assert(evs + scan_events(bs, end as int).0 =~= old_evs + (seq![(a as int, end as int)]
                + scan_events(bs, end as int).0));
        }
        r = end;
    }
}

/// The buffer of a streaming completion's body: decoded text that has not
/// yet been cut into events.
pub struct SseBuffer {
    buffer: String,
}

impl View for SseBuffer {
    type V = Seq<char>;

    closed spec fn view(&self) -> Seq<char> {
        self.buffer@
    }
}

impl SseBuffer {
    /// An empty buffer.
    pub fn new() -> (res: SseBuffer)
        ensures
            res@ == Seq::<char>::empty(),
    {
        SseBuffer { buffer: String::new() }
    }

    /// The text not yet cut into events.
    pub fn pending(&self) -> (res: &str)
        ensures
            res@ == self@,
    {
        self.buffer.as_str()
    }

    /// True when appending `text` and cutting events out of the buffer does not
    /// panic: every event end falls inside the text and on a character.
    pub fn accepts(&self, text: &str) -> (ok: bool)
        ensures
            ok == scan_ok(encode_utf8(self@ + text@), 0),
    {
        let joined = concat(self.buffer.as_str(), text);
        let s = joined.as_str();
        scan_buffer(s).is_some()
    }

    /// Appends `text` and cuts every complete event out of the buffer: returns
    /// the JSON texts of those events and keeps the rest for the next call.
    pub fn feed_text(&mut self, text: &str) -> (payloads: Vec<String>)
        requires
            scan_ok(encode_utf8(old(self)@ + text@), 0),
        ensures
            ({
                let b = encode_utf8(old(self)@ + text@);
                let (evs, keep) = scan_events(b, 0);
                &&& string_views(payloads@) == event_payloads(b, evs)
                &&& final(self)@ == decode_utf8(b.subrange(keep, b.len() as int))
            }),
    {
        push_str(&mut self.buffer, text);
        let s = self.buffer.as_str();
        match scan_buffer(s) {
            Some((payloads, keep)) => {
                let len = s.as_bytes().len();
                proof {
                    lemma_str_bytes(s);
                }
                let rest = substr(s, keep, len).to_owned();
                self.buffer = rest;
                payloads
            },
            None => Vec::new(),
        }
    }

    /// Decodes the bytes of one network chunk (invalid UTF-8 becomes U+FFFD)
    /// and feeds the text; `None`, with the buffer unchanged, where cutting
    /// events would panic.
    pub fn feed(&mut self, bytes: &[u8]) -> (res: Option<Vec<String>>)
        ensures
            ({
                let b = encode_utf8(old(self)@ + utf8_lossy(bytes@));
                let (evs, keep) = scan_events(b, 0);
                &&& res is Some <==> scan_ok(b, 0)
                &&& res is None ==> final(self)@ == old(self)@
                &&& res matches Some(payloads) ==> {
                    &&& string_views(payloads@) == event_payloads(b, evs)
                    &&& final(self)@ == decode_utf8(b.subrange(keep, b.len() as int))
                }
            }),
    {
        let text = from_utf8_lossy(bytes);
        if self.accepts(text.as_str()) {
            Some(self.feed_text(text.as_str()))
        } else {
            None
        }
    }

    /// The JSON texts that the rest of the buffer yields once the stream has
    /// ended.
    pub fn finish(&self) -> (payloads: Vec<String>)
        ensures
            string_views(payloads@) == buffer_payloads(encode_utf8(self@)),
    {
        process_buffer_payloads(self.buffer.as_str())
    }
}

/// The events from a marker at `r` on when every event runs from one marker
/// to the next, and the offset of the last marker, which has no successor.
pub open spec fn marker_chain(b: Seq<u8>, r: int) -> (Seq<(int, int)>, int)
    decreases b.len() - r,
{
    if r < 0 || r + 6 > b.len() {
        (seq![], r)
    } else {
        match find_marker(b, r + 6) {
            None => (seq![], r),
            Some(n) => if r < n && n <= b.len() {
                let rest = marker_chain(b, n);
                (seq![(r, n)] + rest.0, rest.1)
            } else {
                (seq![], r)
            },
        }
    }
}

/// When the unprocessed text starts with `data: `, cutting it never panics,
/// every event runs from one `data: ` to the next, and the text from the
/// last `data: ` on is kept for the next pass.
pub proof fn law_events_between_markers(b: Seq<u8>, r: int)
    requires
        valid_utf8(b),
        marker_at(b, r),
    ensures
        scan_ok(b, r),
        scan_events(b, r) == marker_chain(b, r),
    decreases b.len() - r,
{
    assert(find_marker(b, r) == Some(r));
    lemma_find_marker(b, r + 6);
    if let Some(n) = find_marker(b, r + 6) {
        lemma_marker_boundaries(b, n);
        law_events_between_markers(b, n);
    }
}

proof fn lemma_marker_at_append(x: Seq<u8>, y: Seq<u8>, p: int)
    requires
        0 <= p,
        p + 6 <= x.len(),
    ensures
        marker_at(x + y, p) == marker_at(x, p),
{
    assert((x + y).subrange(p, p + 6) =~= x.subrange(p, p + 6));
}

/// A marker found in `x` is found at the same offset in `x + y`.
proof fn lemma_find_marker_append(x: Seq<u8>, y: Seq<u8>, from: int)
    requires
        0 <= from,
        find_marker(x, from) is Some,
    ensures
        find_marker(x + y, from) == find_marker(x, from),
    decreases x.len() - from,
{
    lemma_marker_at_append(x, y, from);
    if !marker_at(x, from) {
        lemma_find_marker_append(x, y, from + 1);
    }
}

/// Searching the text from `r` on is searching the whole text, shifted.
proof fn lemma_find_marker_shift(w: Seq<u8>, r: int, f: int)
    requires
        0 <= r <= w.len(),
        0 <= f,
    ensures
        find_marker(w.subrange(r, w.len() as int), f) == match find_marker(w, f + r) {
            Some(n) => Some(n - r),
            None => None::<int>,
        },
    decreases w.len() - r - f,
{
    let z = w.subrange(r, w.len() as int);
    if f + 6 <= z.len() {
        assert(z.subrange(f, f + 6) =~= w.subrange(f + r, f + r + 6));
        if !marker_at(z, f) {
            lemma_find_marker_shift(w, r, f + 1);
        }
    }
}

/// The events of a marker chain lie inside the text and start at markers.
proof fn lemma_marker_chain_ranges(b: Seq<u8>, r: int)
    requires
        marker_at(b, r),
    ensures
        marker_at(b, marker_chain(b, r).1),
        r <= marker_chain(b, r).1,
        find_marker(b, marker_chain(b, r).1 + 6) is None,
        forall|i: int|
            0 <= i < marker_chain(b, r).0.len() ==> {
                let (a, e) = #[trigger] marker_chain(b, r).0[i];
                r <= a < e <= b.len()
            },
    decreases b.len() - r,
{
    lemma_find_marker(b, r + 6);
    if let Some(n) = find_marker(b, r + 6) {
        lemma_marker_chain_ranges(b, n);
        let rest = marker_chain(b, n).0;
        assert forall|i: int| 0 <= i < marker_chain(b, r).0.len() implies {
            let (a, e) = #[trigger] marker_chain(b, r).0[i];
            r <= a < e <= b.len()
        } by {
            if i > 0 {
                assert(marker_chain(b, r).0[i] == rest[i - 1]);
            }
        }
    }
}

/// Appending text does not change the events that a chain cuts out before
/// its last marker; the chain goes on from there.
proof fn lemma_marker_chain_append(x: Seq<u8>, y: Seq<u8>, r: int)
    requires
        marker_at(x, r),
    ensures
        marker_chain(x + y, r) == (
            marker_chain(x, r).0 + marker_chain(x + y, marker_chain(x, r).1).0,
            marker_chain(x + y, marker_chain(x, r).1).1,
        ),
    decreases x.len() - r,
{
    lemma_marker_at_append(x, y, r);
    lemma_find_marker(x, r + 6);
    match find_marker(x, r + 6) {
        None => {
            assert(marker_chain(x, r).0 + marker_chain(x + y, r).0 =~= marker_chain(x + y, r).0);
        },
        Some(n) => {
            lemma_find_marker_append(x, y, r + 6);
            lemma_marker_chain_append(x, y, n);
            let k = marker_chain(x, n).1;
            assert(marker_chain(x + y, r).0 =~= marker_chain(x, r).0 + marker_chain(x + y, k).0);
        },
    }
}

/// The events that a pass cuts out of `w` from a marker at `r` on are those
/// that it cuts out of the text from `r` on, shifted.
proof fn lemma_marker_chain_shift(w: Seq<u8>, r: int, s: int)
    requires
        0 <= r <= s,
        marker_at(w, s),
    ensures
        marker_chain(w.subrange(r, w.len() as int), s - r).0 == marker_chain(w, s).0.map_values(
            |p: (int, int)| (p.0 - r, p.1 - r),
        ),
        marker_chain(w.subrange(r, w.len() as int), s - r).1 == marker_chain(w, s).1 - r,
    decreases w.len() - s,
{
    let z = w.subrange(r, w.len() as int);
    lemma_find_marker_shift(w, r, s - r + 6);
    lemma_find_marker(w, s + 6);
    match find_marker(w, s + 6) {
        None => {
            assert(marker_chain(w, s).0.map_values(|p: (int, int)| (p.0 - r, p.1 - r)) =~= Seq::<
                (int, int),
            >::empty());
        },
        Some(n) => {
            lemma_marker_chain_shift(w, r, n);
            assert(marker_chain(z, s - r).0 =~= marker_chain(w, s).0.map_values(
                |p: (int, int)| (p.0 - r, p.1 - r),
            ));
        },
    }
}

proof fn lemma_event_payloads_append(b: Seq<u8>, e1: Seq<(int, int)>, e2: Seq<(int, int)>)
    ensures
        event_payloads(b, e1 + e2) == event_payloads(b, e1) + event_payloads(b, e2),
    decreases e2.len(),
{
    if e2.len() == 0 {
        assert(e1 + e2 =~= e1);
        assert(event_payloads(b, e1) + event_payloads(b, e2) =~= event_payloads(b, e1));
    } else {
        assert((e1 + e2).drop_last() =~= e1 + e2.drop_last());
        lemma_event_payloads_append(b, e1, e2.drop_last());
        let p = event_payloads(b, e1 + e2.drop_last());
        assert(event_payloads(b, e1 + e2) =~= event_payloads(b, e1) + event_payloads(b, e2));
    }
}

/// Payloads only depend on the bytes of the events.
proof fn lemma_event_payloads_same_bytes(
    b: Seq<u8>,
    e: Seq<(int, int)>,
    c: Seq<u8>,
    f: Seq<(int, int)>,
)
    requires
        e.len() == f.len(),
        forall|i: int|
            0 <= i < e.len() ==> b.subrange(#[trigger] e[i].0, e[i].1) == c.subrange(
                f[i].0,
                f[i].1,
            ),
    ensures
        event_payloads(b, e) == event_payloads(c, f),
    decreases e.len(),
{
    if e.len() > 0 {
        assert forall|i: int| 0 <= i < e.drop_last().len() implies b.subrange(
            #[trigger] e.drop_last()[i].0,
            e.drop_last()[i].1,
        ) == c.subrange(f.drop_last()[i].0, f.drop_last()[i].1) by {
            assert(e.drop_last()[i] == e[i]);
            assert(f.drop_last()[i] == f[i]);
        }
        lemma_event_payloads_same_bytes(b, e.drop_last(), c, f.drop_last());
        assert(b.subrange(e.last().0, e.last().1) == c.subrange(f.last().0, f.last().1));
    }
}

/// Two feeds equal one when the buffer starts with `data: ` after the first.
proof fn lemma_split_feed_at_marker(pending: Seq<char>, t1: Seq<char>, t2: Seq<char>)
    requires
        marker_at(encode_utf8(pending + t1), 0),
    ensures
        ({
            let x = encode_utf8(pending + t1);
            let (e1, k1) = scan_events(x, 0);
            let x2 = encode_utf8(decode_utf8(x.subrange(k1, x.len() as int)) + t2);
            let (e2, k2) = scan_events(x2, 0);
            let xx = encode_utf8(pending + t1 + t2);
            let (e, k) = scan_events(xx, 0);
            &&& scan_ok(x, 0)
            &&& scan_ok(x2, 0)
            &&& scan_ok(xx, 0)
            &&& event_payloads(x, e1) + event_payloads(x2, e2) == event_payloads(xx, e)
            &&& decode_utf8(x2.subrange(k2, x2.len() as int)) == decode_utf8(
                xx.subrange(k, xx.len() as int),
            )
        }),
{
    let x = encode_utf8(pending + t1);
    let y = encode_utf8(t2);
    let xx = encode_utf8(pending + t1 + t2);
    lemma_encode_utf8_concat(pending + t1, t2);
    assert(xx == x + y);
    law_events_between_markers(x, 0);
    lemma_marker_at_append(x, y, 0);
    law_events_between_markers(xx, 0);
    lemma_marker_chain_ranges(x, 0);
    let (e1, k1) = marker_chain(x, 0);
    let tail = x.subrange(k1, x.len() as int);
    lemma_marker_boundaries(x, k1);
    valid_utf8_split(x, k1);
    let x2 = encode_utf8(decode_utf8(tail) + t2);
    lemma_encode_utf8_concat(decode_utf8(tail), t2);
    assert(x2 =~= tail + y);
    assert(x2 =~= xx.subrange(k1, xx.len() as int));
    // The second pass starts at the kept marker.
    lemma_marker_at_append(x, y, k1);
    assert(x2.subrange(0, 6) =~= xx.subrange(k1, k1 + 6));
    law_events_between_markers(x2, 0);
    lemma_marker_chain_shift(xx, k1, k1);
    lemma_marker_chain_append(x, y, 0);
    let (ek, kk) = marker_chain(xx, k1);
    let (e2, k2) = marker_chain(x2, 0);
    lemma_marker_chain_ranges(xx, k1);
    // Payloads of the first pass are those of the same events in the whole.
    assert forall|i: int| 0 <= i < e1.len() implies x.subrange(#[trigger] e1[i].0, e1[i].1)
        == xx.subrange(e1[i].0, e1[i].1) by {
        let (a, b) = e1[i];
        assert(x.subrange(a, b) =~= xx.subrange(a, b));
    }
    lemma_event_payloads_same_bytes(x, e1, xx, e1);
    // Payloads of the second pass are those of the shifted events in the whole.
    assert forall|i: int| 0 <= i < e2.len() implies x2.subrange(#[trigger] e2[i].0, e2[i].1)
        == xx.subrange(ek[i].0, ek[i].1) by {
        assert(e2[i] == (ek[i].0 - k1, ek[i].1 - k1));
        assert(x2.subrange(e2[i].0, e2[i].1) =~= xx.subrange(ek[i].0, ek[i].1));
    }
    lemma_event_payloads_same_bytes(x2, e2, xx, ek);
    lemma_event_payloads_append(xx, e1, ek);
    assert(x2.subrange(k2, x2.len() as int) =~= xx.subrange(kk, xx.len() as int));
}

/// What one call of `SseBuffer::feed_text` yields on a buffer holding
/// `pending` and the text `text`, and the buffer it leaves.
pub open spec fn feed_once(pending: Seq<char>, text: Seq<char>) -> (Seq<Seq<char>>, Seq<char>) {
    let b = encode_utf8(pending + text);
    let (evs, keep) = scan_events(b, 0);
    (event_payloads(b, evs), decode_utf8(b.subrange(keep, b.len() as int)))
}

/// The call of `SseBuffer::feed_text` on `pending` and `text` does not
/// panic (its `requires`).
pub open spec fn feed_once_ok(pending: Seq<char>, text: Seq<char>) -> bool {
    scan_ok(encode_utf8(pending + text), 0)
}

/// The texts `parts`, joined in order.
pub open spec fn join_texts(parts: Seq<Seq<char>>) -> Seq<char>
    decreases parts.len(),
{
    if parts.len() == 0 {
        seq![]
    } else {
        parts[0] + join_texts(parts.drop_first())
    }
}

/// What feeding the texts `parts` one call each yields, joined, and the
/// buffer left at the end.
pub open spec fn feed_parts(pending: Seq<char>, parts: Seq<Seq<char>>) -> (Seq<Seq<char>>, Seq<char>)
    decreases parts.len(),
{
    if parts.len() == 0 {
        (seq![], pending)
    } else {
        let first = feed_once(pending, parts[0]);
        let rest = feed_parts(first.1, parts.drop_first());
        (first.0 + rest.0, rest.1)
    }
}

/// None of the calls of `feed_parts` panics.
pub open spec fn feed_parts_ok(pending: Seq<char>, parts: Seq<Seq<char>>) -> bool
    decreases parts.len(),
{
    parts.len() == 0 || (feed_once_ok(pending, parts[0]) && feed_parts_ok(
        feed_once(pending, parts[0]).1,
        parts.drop_first(),
    ))
}

/// Feeding a text in two parts yields the same payloads, in the same order,
/// and leaves the same buffer as feeding it at once, whenever the whole text
/// starts with `data: `; no call panics, and the buffer after the first part
/// again starts with `data: ` together with the second.
pub proof fn law_split_feed(pending: Seq<char>, t1: Seq<char>, t2: Seq<char>)
    requires
        marker_at(encode_utf8(pending + t1 + t2), 0),
    ensures
        feed_once_ok(pending, t1),
        feed_once_ok(feed_once(pending, t1).1, t2),
        feed_once_ok(pending, t1 + t2),
        feed_once(pending, t1).0 + feed_once(feed_once(pending, t1).1, t2).0 == feed_once(
            pending,
            t1 + t2,
        ).0,
        feed_once(feed_once(pending, t1).1, t2).1 == feed_once(pending, t1 + t2).1,
        marker_at(encode_utf8(feed_once(pending, t1).1 + t2), 0),
{
    let x = encode_utf8(pending + t1);
    let y = encode_utf8(t2);
    let xx = encode_utf8(pending + t1 + t2);
    assert(pending + (t1 + t2) =~= pending + t1 + t2);
    lemma_encode_utf8_concat(pending + t1, t2);
    assert(xx == x + y);
    assert(encode_utf8(pending + (t1 + t2)) == xx);
    law_events_between_markers(xx, 0);
    let p1 = feed_once(pending, t1).1;
    if x.len() >= 6 {
        lemma_marker_at_append(x, y, 0);
        lemma_split_feed_at_marker(pending, t1, t2);
        law_events_between_markers(x, 0);
        lemma_marker_chain_ranges(x, 0);
        let k1 = marker_chain(x, 0).1;
        let tail = x.subrange(k1, x.len() as int);
        lemma_marker_boundaries(x, k1);
        valid_utf8_split(x, k1);
        lemma_encode_utf8_concat(decode_utf8(tail), t2);
        let x2 = encode_utf8(p1 + t2);
        assert(x2 =~= tail + y);
        assert(x2.subrange(0, 6) =~= x.subrange(k1, k1 + 6));
    } else {
        assert(find_marker(x, 0) is None);
        assert(x.subrange(0, x.len() as int) =~= x);
        assert(p1 == pending + t1);
        assert(encode_utf8(p1 + t2) == xx);
        let e = Seq::<(int, int)>::empty();
        assert(feed_once(pending, t1).0 == event_payloads(x, e));
        assert(feed_once(pending, t1).0 + feed_once(p1, t2).0 =~= feed_once(p1, t2).0);
    }
}

/// Feeding a text in any number of parts, one call each, yields the same
/// payloads in the same order and leaves the same buffer as feeding it at
/// once, and no call panics, whenever the whole text starts with `data: `.
pub proof fn law_feed_parts(pending: Seq<char>, parts: Seq<Seq<char>>)
    requires
        parts.len() > 0,
        marker_at(encode_utf8(pending + join_texts(parts)), 0),
    ensures
        feed_parts_ok(pending, parts),
        feed_once_ok(pending, join_texts(parts)),
        feed_parts(pending, parts) == feed_once(pending, join_texts(parts)),
    decreases parts.len(),
{
    let t1 = parts[0];
    let rest = parts.drop_first();
    let j = join_texts(rest);
    assert(join_texts(parts) == t1 + j);
    assert(pending + join_texts(parts) =~= pending + t1 + j);
    law_split_feed(pending, t1, j);
    let p1 = feed_once(pending, t1).1;
    let first = feed_once(pending, t1);
    assert(feed_parts(pending, parts) == (first.0 + feed_parts(p1, rest).0, feed_parts(p1, rest).1));
    assert(feed_parts_ok(pending, parts) == (feed_once_ok(pending, t1) && feed_parts_ok(p1, rest)));
    if rest.len() == 0 {
        assert(j =~= Seq::<char>::empty());
        assert(t1 + j =~= t1);
        assert(feed_parts(p1, rest) == (Seq::<Seq<char>>::empty(), p1));
        assert(first.0 + Seq::<Seq<char>>::empty() =~= first.0);
    } else {
        law_feed_parts(p1, rest);
        assert(feed_parts(pending, parts).0 =~= feed_once(pending, t1 + j).0);
    }
}

/// The characters of the event marker `data: `.
pub open spec fn data_prefix_text() -> Seq<char> {
    seq!['d', 'a', 't', 'a', ':', ' ']
}

/// The characters that end an event: two line feeds.
pub open spec fn event_end_text() -> Seq<char> {
    seq!['\n', '\n']
}

/// The event `data: {j}\n\n`.
pub open spec fn event_text(j: Seq<char>) -> Seq<char> {
    data_prefix_text() + j + event_end_text()
}

/// The body of a stream of the events of `js`, in order.
pub open spec fn stream_text(js: Seq<Seq<char>>) -> Seq<char>
    decreases js.len(),
{
    if js.len() == 0 {
        seq![]
    } else {
        event_text(js[0]) + stream_text(js.drop_first())
    }
}

/// The text holds no `data: `.
pub open spec fn has_no_marker(j: Seq<char>) -> bool {
    forall|p: int| !marker_at(encode_utf8(j), p)
}

/// The JSON texts of the events of `js`: each trimmed, `[DONE]` left out.
pub open spec fn stream_payloads(js: Seq<Seq<char>>) -> Seq<Seq<char>>
    decreases js.len(),
{
    if js.len() == 0 {
        seq![]
    } else {
        let d = trim_ws(js[0]);
        (if d == done_text() {
            Seq::<Seq<char>>::empty()
        } else {
            seq![d]
        }) + stream_payloads(js.drop_first())
    }
}

spec fn event_bytes(j: Seq<char>) -> Seq<u8> {
    data_marker() + encode_utf8(j) + seq![0x0au8, 0x0au8]
}

proof fn lemma_event_encoding(j: Seq<char>)
    ensures
        encode_utf8(event_text(j)) == event_bytes(j),
        decode_utf8(encode_utf8(j) + seq![0x0au8, 0x0au8]) == j + event_end_text(),
{
    let m = data_prefix_text();
    let nl = event_end_text();
    assert(is_ascii_chars(m));
    assert(is_ascii_chars(nl));
    is_ascii_chars_encode_utf8(m);
    is_ascii_chars_encode_utf8(nl);
    assert(encode_utf8(m) =~= data_marker());
    assert(encode_utf8(nl) =~= seq![0x0au8, 0x0au8]);
    lemma_encode_utf8_concat(m, j);
    lemma_encode_utf8_concat(m + j, nl);
    lemma_encode_utf8_concat(j, nl);
    assert(encode_utf8(event_text(j)) =~= event_bytes(j));
}

proof fn lemma_trim_start_append_newlines(s: Seq<char>)
    ensures
        trim_start_ws(s).len() > 0 ==> trim_start_ws(s + event_end_text()) == trim_start_ws(s)
            + event_end_text(),
        trim_start_ws(s).len() == 0 ==> trim_start_ws(s + event_end_text()) == Seq::<
            char,
        >::empty(),
    decreases s.len(),
{
    let w = event_end_text();
    if s.len() == 0 {
        assert(s + w =~= w);
        let w1 = w.drop_first();
        assert(is_white_space(w[0]));
        assert(w1 =~= seq!['\n']);
        assert(is_white_space(w1[0]));
        assert(w1.drop_first() =~= Seq::<char>::empty());
        assert(trim_start_ws(w1.drop_first()) == Seq::<char>::empty());
        assert(trim_start_ws(w1) == Seq::<char>::empty());
        assert(trim_start_ws(w) == Seq::<char>::empty());
    } else if is_white_space(s[0]) {
        assert((s + w).drop_first() =~= s.drop_first() + w);
        lemma_trim_start_append_newlines(s.drop_first());
    } else {
        assert((s + w)[0] == s[0]);
    }
}

/// Trailing line feeds do not change the trimmed text.
proof fn lemma_trim_append_newlines(s: Seq<char>)
    ensures
        trim_ws(s + event_end_text()) == trim_ws(s),
{
    let w = event_end_text();
    lemma_trim_start_append_newlines(s);
    let t = trim_start_ws(s);
    if t.len() > 0 {
        let t1 = t + seq!['\n'];
        assert((t + w).last() == '\n');
        assert((t + w).drop_last() =~= t1);
        assert(t1.last() == '\n');
        assert(t1.drop_last() =~= t);
        assert(trim_end_ws(t1) == trim_end_ws(t));
        assert(trim_end_ws(t + w) == trim_end_ws(t1));
    } else {
        assert(t =~= Seq::<char>::empty());
        assert(trim_start_ws(s + w) =~= t);
    }
}

proof fn lemma_find_marker_at(b: Seq<u8>, from: int, to: int)
    requires
        0 <= from <= to,
        marker_at(b, to),
        forall|p: int| from <= p < to ==> !#[trigger] marker_at(b, p),
    ensures
        find_marker(b, from) == Some(to),
    decreases to - from,
{
    if from < to {
        lemma_find_marker_at(b, from + 1, to);
    }
}

proof fn lemma_find_marker_absent(b: Seq<u8>, from: int)
    requires
        0 <= from,
        forall|p: int| from <= p ==> !#[trigger] marker_at(b, p),
    ensures
        find_marker(b, from) is None,
    decreases b.len() - from,
{
    if from + 6 <= b.len() {
        lemma_find_marker_absent(b, from + 1);
    }
}

/// Inside an event, after its first byte, no marker starts.
proof fn lemma_event_no_inner_marker(j: Seq<char>, y: Seq<u8>, p: int)
    requires
        has_no_marker(j),
        1 <= p < event_bytes(j).len(),
    ensures
        !marker_at(event_bytes(j) + y, p),
{
    let e = event_bytes(j);
    let b = e + y;
    let ej = encode_utf8(j);
    let n = ej.len() as int;
    if marker_at(b, p) {
        let w = b.subrange(p, p + 6);
        assert(w == data_marker());
        if p < 6 {
            assert(w[0] == b[p]);
            assert(b[p] == e[p]);
            assert(e[p] == data_marker()[p]);
        } else if p + 6 <= 6 + n {
            assert(b.subrange(p, p + 6) =~= ej.subrange(p - 6, p));
            assert(!marker_at(ej, p - 6));
        } else {
            let q = if p <= 6 + n {
                6 + n
            } else {
                7 + n
            };
            assert(b[q] == e[q]);
            assert(e[q] == 0x0au8);
            assert(w[q - p] == b[q]);
        }
    }
}

/// The payload of one event is its text, trimmed, unless that is `[DONE]`.
proof fn lemma_event_payload(j: Seq<char>)
    requires
        has_no_marker(j),
    ensures
        chunk_payload(event_bytes(j)) == (if trim_ws(j) == done_text() {
            None
        } else {
            Some(trim_ws(j))
        }),
        trim_ws(decode_utf8(event_bytes(j).subrange(6, event_bytes(j).len() as int))) == trim_ws(
            j,
        ),
{
    let e = event_bytes(j);
    let rest = e.subrange(6, e.len() as int);
    lemma_event_encoding(j);
    assert(rest =~= encode_utf8(j) + seq![0x0au8, 0x0au8]);
    assert(e.subrange(0, 6) =~= data_marker());
    assert(e.subrange(6, e.len() as int) == rest);
    lemma_event_no_inner_marker(j, Seq::<u8>::empty(), 6);
    assert(e + Seq::<u8>::empty() =~= e);
    if rest.len() >= 6 {
        assert(rest.subrange(0, 6) =~= e.subrange(6, 12));
    }
    assert(!marker_at(rest, 0));
    assert(strip_markers(rest) == rest);
    assert(strip_markers(e) == rest);
    lemma_trim_append_newlines(j);
}

proof fn lemma_stream_encoding(js: Seq<Seq<char>>)
    requires
        js.len() > 0,
    ensures
        encode_utf8(stream_text(js)) == event_bytes(js[0]) + encode_utf8(
            stream_text(js.drop_first()),
        ),
{
    lemma_event_encoding(js[0]);
    lemma_encode_utf8_concat(event_text(js[0]), stream_text(js.drop_first()));
}

spec fn event_opt(j: Seq<char>) -> Seq<Seq<char>> {
    if trim_ws(j) == done_text() {
        Seq::<Seq<char>>::empty()
    } else {
        seq![trim_ws(j)]
    }
}

spec fn stream_read(b: Seq<u8>) -> Seq<Seq<char>> {
    event_payloads(b, marker_chain(b, 0).0) + buffer_payloads(
        b.subrange(marker_chain(b, 0).1, b.len() as int),
    )
}

proof fn lemma_event_starts_stream(j: Seq<char>, y: Seq<u8>)
    requires
        has_no_marker(j),
    ensures
        marker_at(event_bytes(j) + y, 0),
        forall|p: int| 1 <= p < event_bytes(j).len() ==> !#[trigger] marker_at(event_bytes(j) + y, p),
{
    let e = event_bytes(j);
    assert((e + y).subrange(0, 6) =~= data_marker());
    assert forall|p: int| 1 <= p < e.len() implies !#[trigger] marker_at(e + y, p) by {
        lemma_event_no_inner_marker(j, y, p);
    }
}

proof fn lemma_stream_single(j: Seq<char>)
    requires
        has_no_marker(j),
    ensures
        marker_at(event_bytes(j), 0),
        stream_read(event_bytes(j)) == event_opt(j),
{
    let e = event_bytes(j);
    let b = e + Seq::<u8>::empty();
    assert(b =~= e);
    lemma_event_starts_stream(j, Seq::<u8>::empty());
    lemma_event_payload(j);
    assert forall|p: int| 6 <= p implies !#[trigger] marker_at(e, p) by {
        if p < e.len() {
            lemma_event_no_inner_marker(j, Seq::<u8>::empty(), p);
        }
    }
    lemma_find_marker_absent(e, 6);
    assert(marker_chain(e, 0) == (Seq::<(int, int)>::empty(), 0int));
    assert(e.subrange(0, e.len() as int) =~= e);
    lemma_find_marker_at(e, 0, 0);
    let ps = split_pieces(e, 0);
    assert(split_pieces(e, 6) == seq![(6int, e.len() as int)]);
    assert(ps =~= seq![(0int, 0int), (6int, e.len() as int)]);
    assert(ps.drop_last() =~= seq![(0int, 0int)]);
    assert(seq![(0int, 0int)].drop_last() =~= Seq::<(int, int)>::empty());
    let first = seq![(0int, 0int)];
    assert(piece_payloads(e, first.drop_last()) == Seq::<Seq<char>>::empty());
    assert(first.last() == (0int, 0int));
    assert(piece_payloads(e, first) == Seq::<Seq<char>>::empty());
    assert(ps.last() == (6int, e.len() as int));
    if trim_ws(j) == done_text() {
        assert(buffer_payloads(e) =~= event_opt(j));
    } else {
        assert(buffer_payloads(e) =~= Seq::<Seq<char>>::empty().push(trim_ws(j)));
        assert(buffer_payloads(e) =~= event_opt(j));
    }
    assert(event_payloads(e, Seq::<(int, int)>::empty()) + event_opt(j) =~= event_opt(j));
}

proof fn lemma_stream_cons(j: Seq<char>, b2: Seq<u8>)
    requires
        has_no_marker(j),
        marker_at(b2, 0),
        valid_utf8(b2),
    ensures
        stream_read(event_bytes(j) + b2) == event_opt(j) + stream_read(b2),
{
    let e = event_bytes(j);
    let b = e + b2;
    let el = e.len() as int;
    lemma_event_starts_stream(j, b2);
    lemma_event_payload(j);
    assert(b2.subrange(0, 6) =~= b.subrange(el, el + 6));
    assert(marker_at(b, el));
    lemma_find_marker_at(b, 6, el);
    let (c2, k2) = marker_chain(b2, 0);
    lemma_marker_chain_shift(b, el, el);
    assert(b.subrange(el, b.len() as int) =~= b2);
    let (c, k) = marker_chain(b, el);
    assert(marker_chain(b, 0).0 == seq![(0int, el)] + c);
    assert(marker_chain(b, 0).1 == k);
    lemma_marker_chain_ranges(b, el);
    lemma_event_payloads_append(b, seq![(0int, el)], c);
    let one = seq![(0int, el)];
    assert(one.drop_last() =~= Seq::<(int, int)>::empty());
    assert(one.last() == (0int, el));
    assert(b.subrange(0, el) =~= e);
    assert(event_payloads(b, one.drop_last()) == Seq::<Seq<char>>::empty());
    assert(chunk_payload(b.subrange(0, el)) == chunk_payload(e));
    if trim_ws(j) == done_text() {
        assert(event_payloads(b, one) =~= event_opt(j));
    } else {
        assert(event_payloads(b, one) =~= Seq::<Seq<char>>::empty().push(trim_ws(j)));
        assert(event_payloads(b, one) =~= event_opt(j));
    }
    assert forall|i: int| 0 <= i < c.len() implies b.subrange(#[trigger] c[i].0, c[i].1)
        == b2.subrange(c2[i].0, c2[i].1) by {
        assert(c2[i] == (c[i].0 - el, c[i].1 - el));
        assert(b.subrange(c[i].0, c[i].1) =~= b2.subrange(c2[i].0, c2[i].1));
    }
    lemma_event_payloads_same_bytes(b, c, b2, c2);
    assert(b.subrange(k, b.len() as int) =~= b2.subrange(k2, b2.len() as int));
    assert(stream_read(b) =~= event_opt(j) + stream_read(b2));
}

proof fn lemma_stream_scan(js: Seq<Seq<char>>)
    requires
        js.len() > 0,
        forall|i: int| 0 <= i < js.len() ==> has_no_marker(#[trigger] js[i]),
    ensures
        marker_at(encode_utf8(stream_text(js)), 0),
        stream_read(encode_utf8(stream_text(js))) == stream_payloads(js),
    decreases js.len(),
{
    let j = js[0];
    let rest = js.drop_first();
    let b2 = encode_utf8(stream_text(rest));
    lemma_stream_encoding(js);
    assert(stream_payloads(js) == event_opt(j) + stream_payloads(rest));
    lemma_event_starts_stream(j, b2);
    if rest.len() == 0 {
        assert(stream_text(rest) =~= Seq::<char>::empty());
        assert(b2 =~= Seq::<u8>::empty());
        assert(event_bytes(j) + b2 =~= event_bytes(j));
        lemma_stream_single(j);
        assert(stream_payloads(rest) =~= Seq::<Seq<char>>::empty());
        assert(event_opt(j) + stream_payloads(rest) =~= event_opt(j));
    } else {
        assert forall|i: int| 0 <= i < rest.len() implies has_no_marker(#[trigger] rest[i]) by {
            assert(rest[i] == js[i + 1]);
        }
        lemma_stream_scan(rest);
        lemma_stream_cons(j, b2);
    }
}

/// A well-formed event stream, each event `data: {json}\n\n` with no
/// `data: ` inside its JSON, is read in full: the JSON texts that feeding the
/// body yields, followed by those that the end of the stream yields from the
/// rest of the buffer, are the events' JSON texts, trimmed, in order, with
/// `[DONE]` left out; the last event is included, and no call panics. With
/// `law_feed_parts`, the same holds however the body is split into parts.
pub proof fn law_event_stream(js: Seq<Seq<char>>)
    requires
        js.len() > 0,
        forall|i: int| 0 <= i < js.len() ==> has_no_marker(#[trigger] js[i]),
    ensures
        feed_once_ok(Seq::<char>::empty(), stream_text(js)),
        feed_once(Seq::<char>::empty(), stream_text(js)).0 + buffer_payloads(
            encode_utf8(feed_once(Seq::<char>::empty(), stream_text(js)).1),
        ) == stream_payloads(js),
{
    let t = stream_text(js);
    assert(Seq::<char>::empty() + t =~= t);
    let b = encode_utf8(t);
    lemma_stream_scan(js);
    law_events_between_markers(b, 0);
    assert(stream_read(b) == stream_payloads(js));
    lemma_marker_chain_ranges(b, 0);
    let k = marker_chain(b, 0).1;
    lemma_marker_boundaries(b, k);
    valid_utf8_split(b, k);
}

} // verus!
