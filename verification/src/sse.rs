use vstd::prelude::*;

use crate::markdown::views;
use crate::text::{
    chars_of, contains, find, find_from_exec, lines, lines_spec, push_char, push_range, push_str,
    starts_with, starts_with_exec, string_from, sub_vec, trim, trim_vec,
};

verus! {

// ---------------------------------------------------------------------------
// Bytes to text
// ---------------------------------------------------------------------------

/// The text that `String::from_utf8_lossy` makes of `bytes`.
pub uninterp spec fn utf8_lossy(bytes: Seq<u8>) -> Seq<char>;

/// `String::from_utf8_lossy`: the bytes decoded as UTF-8, each invalid
/// sequence replaced by U+FFFD. Its documentation gives the plain decoding
/// for valid UTF-8; the replacements are named `utf8_lossy`.
#[verifier::external_body]
fn from_utf8_lossy(bytes: &[u8]) -> (r: String)
    ensures
        r@ == utf8_lossy(bytes@),
        vstd::utf8::valid_utf8(bytes@) ==> r@ == vstd::utf8::decode_utf8(bytes@),
{
    String::from_utf8_lossy(bytes).into_owned()
}

// ---------------------------------------------------------------------------
// Splitting the stream into events
// ---------------------------------------------------------------------------

/// The separator that ends the next event: a blank line, `\n\n` if the
/// buffer holds one, else `\r\n\r\n`.
pub open spec fn event_separator(buf: Seq<char>) -> Option<Seq<char>> {
    if contains(buf, "\n\n"@) {
        Some("\n\n"@)
    } else if contains(buf, "\r\n\r\n"@) {
        Some("\r\n\r\n"@)
    } else {
        None
    }
}

/// The next raw event (up to and including its separator) and the rest of
/// the buffer, if the buffer holds a complete event.
pub open spec fn next_event_split(buf: Seq<char>) -> Option<(Seq<char>, Seq<char>)> {
    match event_separator(buf) {
        Some(sep) => match find(buf, sep) {
            Some(k) => Some((buf.take(k + sep.len()), buf.skip(k + sep.len()))),
            None => None,
        },
        None => None,
    }
}

/// Lines joined with `\n` between them.
pub open spec fn join_lines(ls: Seq<Seq<char>>) -> Seq<char>
    decreases ls.len(),
{
    if ls.len() == 0 {
        Seq::empty()
    } else if ls.len() == 1 {
        ls[0]
    } else {
        join_lines(ls.drop_last()) + seq!['\n'] + ls.last()
    }
}

/// The event type and data lines read from the first `n` lines of an event,
/// the data prefix being `data:` (its value kept as it stands) or a single
/// leading space.
pub open spec fn event_fields(ls: Seq<Seq<char>>, n: int) -> (Seq<char>, Seq<Seq<char>>)
    decreases n,
{
    if n <= 0 {
        (Seq::empty(), Seq::empty())
    } else {
        let (et, data) = event_fields(ls, n - 1);
        let line = ls[n - 1];
        if starts_with(line, "event: "@) {
            (trim(line.skip(7)), data)
        } else if starts_with(line, " "@) {
            (et, data.push(line.skip(1)))
        } else if starts_with(line, "data:"@) {
            (et, data.push(line.skip(5)))
        } else {
            (et, data)
        }
    }
}

/// The event that a raw event holds: its type and its data lines joined;
/// none when it has no data line.
pub open spec fn event_of(raw: Seq<char>) -> Option<(Seq<char>, Seq<char>)> {
    let ls = lines_spec(raw);
    let (et, data) = event_fields(ls, ls.len() as int);
    if data.len() == 0 {
        None
    } else {
        Some((et, join_lines(data)))
    }
}

/// One raw event of a stream: its type (empty when not given) and its data.
pub struct SseRawEvent {
    pub event_type: String,
    pub data: String,
}

/// The events that extraction takes from a buffer, and the buffer left:
/// every complete event is taken off the buffer, those without data are
/// dropped, and what follows the last complete event stays.
pub open spec fn drain_events(buf: Seq<char>) -> (Seq<(Seq<char>, Seq<char>)>, Seq<char>)
    decreases buf.len(),
{
    match next_event_split(buf) {
        None => (Seq::empty(), buf),
        Some((raw, rest)) => if rest.len() < buf.len() {
            match event_of(raw) {
                None => drain_events(rest),
                Some(e) => {
                    let (es, r) = drain_events(rest);
                    (seq![e] + es, r)
                },
            }
        } else {
            (Seq::empty(), rest)
        },
    }
}

/// Feeding drains the buffer of every complete event: what stays holds no
/// complete event.
pub proof fn law_drain_leaves_no_event(buf: Seq<char>)
    ensures
        next_event_split(drain_events(buf).1) is None,
    decreases buf.len(),
{
    match next_event_split(buf) {
        None => {},
        Some((raw, rest)) => {
            if rest.len() < buf.len() {
                law_drain_leaves_no_event(rest);
            } else {
                lemma_split_shrinks(buf);
            }
        },
    }
}

/// A complete event is never empty, so splitting it off shortens the buffer.
proof fn lemma_split_shrinks(buf: Seq<char>)
    requires
        next_event_split(buf) is Some,
    ensures
        (next_event_split(buf)->0).1.len() < buf.len(),
{
    reveal_strlit("\n\n");
    reveal_strlit("\r\n\r\n");
    let sep = event_separator(buf)->0;
    crate::text::lemma_find_from(buf, sep, 0);
}

/// The views of a list of raw events.
pub open spec fn event_views(es: Seq<SseRawEvent>) -> Seq<(Seq<char>, Seq<char>)> {
    Seq::new(es.len(), |i: int| (es[i].event_type@, es[i].data@))
}

/// Joins lines with `\n` between them.
fn join_exec(ls: &Vec<Vec<char>>) -> (r: String)
    ensures
        r@ == join_lines(views(ls@)),
{
    let mut r = String::new();
    let mut i: usize = 0;
    while i < ls.len()
        invariant
            i <= ls.len(),
            r@ == join_lines(views(ls@).take(i as int)),
        decreases ls.len() - i,
    {
        let ghost before = r@;
        if i > 0 {
            push_char(&mut r, '\n');
        }
        push_range(&mut r, &ls[i], 0, ls[i].len());
        proof {
            let dv = views(ls@);
            assert(dv.take(i + 1).drop_last() =~= dv.take(i as int));
            assert(ls[i as int]@.subrange(0, ls[i as int]@.len() as int) =~= dv[i as int]);
            if i == 0 {
                assert(dv.take(1) =~= seq![dv[0]]);
                assert(r@ =~= dv[0]);
            } else {
                assert(r@ =~= before + seq!['\n'] + dv[i as int]);
            }
        }
        i = i + 1;
    }
    assert(views(ls@).take(ls.len() as int) =~= views(ls@));
    r
}

/// Splits off the next complete raw event of `buf`.
fn split_next(buf: &Vec<char>) -> (r: Option<(Vec<char>, Vec<char>)>)
    ensures
        match r {
            Some((raw, rest)) => next_event_split(buf@) == Some((raw@, rest@)) && rest.len()
                < buf.len(),
            None => next_event_split(buf@) is None,
        },
{
    let lf2 = chars_of("\n\n");
    let crlf2 = chars_of("\r\n\r\n");
    proof {
        reveal_strlit("\n\n");
        reveal_strlit("\r\n\r\n");
    }
    let sep = if find_from_exec(buf, &lf2, 0).is_some() {
        lf2
    } else if find_from_exec(buf, &crlf2, 0).is_some() {
        crlf2
    } else {
        return None;
    };
    let slen = sep.len();
    match find_from_exec(buf, &sep, 0) {
        Some(k) => {
            proof {
                crate::text::lemma_find_from(buf@, sep@, 0);
                assert(crate::text::occurs_at(buf@, sep@, k as int));
                assert(k + sep@.len() <= buf@.len());
            }
            assert(k + slen <= buf.len());
            let end = k + slen;
            let raw = sub_vec(buf, 0, end);
            let rest = sub_vec(buf, end, buf.len());
            assert(raw@ =~= buf@.take(end as int));
            assert(rest@ =~= buf@.skip(end as int));
            Some((raw, rest))
        },
        None => None,
    }
}

/// The event type and data lines that the engine's parser reads from the
/// first `n` lines of an event: `event:`, `data: ` and `data:` prefixes.
pub open spec fn inline_fields(ls: Seq<Seq<char>>, n: int) -> (Seq<char>, Seq<Seq<char>>)
    decreases n,
{
    if n <= 0 {
        (Seq::empty(), Seq::empty())
    } else {
        let (et, data) = inline_fields(ls, n - 1);
        let line = ls[n - 1];
        if starts_with(line, "event:"@) {
            (trim(line.skip(6)), data)
        } else if starts_with(line, "data: "@) {
            (et, data.push(line.skip(6)))
        } else if starts_with(line, "data:"@) {
            (et, data.push(line.skip(5)))
        } else {
            (et, data)
        }
    }
}

/// The fields of a raw event: per `inline_fields` when `inline`, else per `event_fields`.
fn read_fields(raw: &Vec<char>, inline: bool) -> (r: (Vec<char>, Vec<Vec<char>>))
    ensures
        (r.0@, views(r.1@)) == if inline {
            inline_fields(lines_spec(raw@), lines_spec(raw@).len() as int)
        } else {
            event_fields(lines_spec(raw@), lines_spec(raw@).len() as int)
        },
{
    let ls = lines(raw);
    let (p_event, p_space) = if inline {
        (chars_of("event:"), chars_of("data: "))
    } else {
        (chars_of("event: "), chars_of(" "))
    };
    let p_data = chars_of("data:");
    let mut event_type: Vec<char> = Vec::new();
    let mut data_lines: Vec<Vec<char>> = Vec::new();
    let mut i: usize = 0;
    while i < ls.len()
        invariant
            i <= ls.len(),
            ls.deep_view() == lines_spec(raw@),
            inline ==> p_event@ == "event:"@ && p_space@ == "data: "@,
            !inline ==> p_event@ == "event: "@ && p_space@ == " "@,
            p_data@ == "data:"@,
            (event_type@, views(data_lines@)) == if inline {
                inline_fields(ls.deep_view(), i as int)
            } else {
                event_fields(ls.deep_view(), i as int)
            },
        decreases ls.len() - i,
    {
        proof {
            reveal_strlit("event: ");
            reveal_strlit(" ");
            reveal_strlit("event:");
            reveal_strlit("data: ");
            reveal_strlit("data:");
        }
        let line = &ls[i];
        let ghost prev = views(data_lines@);
        if starts_with_exec(line, &p_event) {
            let v = sub_vec(line, p_event.len(), line.len());
            event_type = trim_vec(&v);
        } else if starts_with_exec(line, &p_space) {
            let v = sub_vec(line, p_space.len(), line.len());
            let ghost vv = v@;
            data_lines.push(v);
            assert(views(data_lines@) =~= prev.push(vv));
        } else if starts_with_exec(line, &p_data) {
            let v = sub_vec(line, 5, line.len());
            let ghost vv = v@;
            data_lines.push(v);
            assert(views(data_lines@) =~= prev.push(vv));
        }
        assert(ls.deep_view()[i as int] == ls[i as int]@);
        proof {
            let l = ls[i as int]@;
            assert(l.subrange(5, l.len() as int) =~= l.skip(5));
            assert(l.subrange(6, l.len() as int) =~= l.skip(6));
            assert(l.subrange(7, l.len() as int) =~= l.skip(7));
            assert(l.subrange(1, l.len() as int) =~= l.skip(1));
        }
        i = i + 1;
    }
    (event_type, data_lines)
}

/// The event of a raw event, per `event_of`.
fn read_event(raw: &Vec<char>) -> (r: Option<SseRawEvent>)
    ensures
        match r {
            Some(e) => event_of(raw@) == Some((e.event_type@, e.data@)),
            None => event_of(raw@) is None,
        },
{
    let (event_type, data_lines) = read_fields(raw, false);
    if data_lines.len() == 0 {
        return None;
    }
    let data = join_exec(&data_lines);
    Some(SseRawEvent { event_type: string_from(&event_type), data })
}

/// Parse an SSE stream from raw bytes into raw events (the JSON in each
/// event's data is for the caller to parse).
pub struct SseParser {
    pub buffer: String,
}

impl SseParser {
    pub fn new() -> (p: Self)
        ensures
            p.buffer@ == Seq::<char>::empty(),
    {
        SseParser { buffer: String::new() }
    }

    /// Takes the next complete event off the buffer: `None` when the buffer
    /// holds no complete event; else the event, `None` inside when it has no
    /// data.
    fn extract_event(&mut self) -> (r: Option<Option<SseRawEvent>>)
        ensures
            match next_event_split(old(self).buffer@) {
                None => r is None && final(self).buffer@ == old(self).buffer@,
                Some((raw, rest)) => {
                    &&& final(self).buffer@ == rest
                    &&& rest.len() < old(self).buffer@.len()
                    &&& match r {
                        Some(Some(e)) => event_of(raw) == Some((e.event_type@, e.data@)),
                        Some(None) => event_of(raw) is None,
                        None => false,
                    }
                },
            },
    {
        let b = chars_of(self.buffer.as_str());
        match split_next(&b) {
            None => None,
            Some((raw, rest)) => {
                self.buffer = string_from(&rest);
                Some(read_event(&raw))
            },
        }
    }

    /// Feed raw bytes and extract any complete SSE events.
    pub fn feed(&mut self, chunk: &[u8]) -> (events: Vec<SseRawEvent>)
        ensures
            event_views(events@) == drain_events(old(self).buffer@ + utf8_lossy(chunk@)).0,
            final(self).buffer@ == drain_events(old(self).buffer@ + utf8_lossy(chunk@)).1,
    {
        let text = from_utf8_lossy(chunk);
        push_str(&mut self.buffer, text.as_str());
        let ghost start = self.buffer@;
        let mut events: Vec<SseRawEvent> = Vec::new();
        loop
            invariant_except_break
                drain_events(start) == (
                    event_views(events@) + drain_events(self.buffer@).0,
                    drain_events(self.buffer@).1,
                ),
            ensures
                event_views(events@) == drain_events(start).0,
                self.buffer@ == drain_events(start).1,
            decreases self.buffer@.len(),
        {
            let ghost cur = self.buffer@;
            let ghost prev_views = event_views(events@);
            match self.extract_event() {
                Some(None) => {
                    assert(drain_events(cur) == drain_events(self.buffer@));
                },
                Some(Some(e)) => {
                    let ghost ev = (e.event_type@, e.data@);
                    events.push(e);
                    proof {
                        assert(event_views(events@) =~= prev_views.push(ev));
                        assert(seq![ev] + drain_events(self.buffer@).0 =~= drain_events(cur).0);
                        assert(event_views(events@) + drain_events(self.buffer@).0 =~= prev_views
                            + drain_events(cur).0);
                    }
                },
                None => {
                    assert(drain_events(cur).0 =~= Seq::<(Seq<char>, Seq<char>)>::empty());
                    assert(event_views(events@) + drain_events(cur).0 =~= event_views(events@));
                    break;
                },
            }
        }
        events
    }
}

/// The event that the engine's parser reads from a raw event: its type and
/// its data lines joined (empty when it has none).
pub open spec fn inline_event_of(raw: Seq<char>) -> (Seq<char>, Seq<char>) {
    let ls = lines_spec(raw);
    let (et, data) = inline_fields(ls, ls.len() as int);
    (et, join_lines(data))
}

/// The engine's stream parser, which hands out every complete event with
/// its raw data text.
pub struct SseParserInline {
    pub buffer: String,
}

impl SseParserInline {
    pub fn new() -> (p: Self)
        ensures
            p.buffer@ == Seq::<char>::empty(),
    {
        SseParserInline { buffer: String::new() }
    }

    /// Appends a chunk of the byte stream, decoded leniently.
    pub fn push_bytes(&mut self, chunk: &[u8])
        ensures
            final(self).buffer@ == old(self).buffer@ + utf8_lossy(chunk@),
    {
        let text = from_utf8_lossy(chunk);
        push_str(&mut self.buffer, text.as_str());
    }

    /// Takes the next complete event off the buffer: its type and data.
    pub fn next_raw_event(&mut self) -> (r: Option<(String, String)>)
        ensures
            match next_event_split(old(self).buffer@) {
                None => r is None && final(self).buffer@ == old(self).buffer@,
                Some((raw, rest)) => {
                    &&& final(self).buffer@ == rest
                    &&& rest.len() < old(self).buffer@.len()
                    &&& r matches Some((t, d)) && (t@, d@) == inline_event_of(raw)
                },
            },
    {
        let b = chars_of(self.buffer.as_str());
        match split_next(&b) {
            None => None,
            Some((raw, rest)) => {
                self.buffer = string_from(&rest);
                let (event_type, data_lines) = read_fields(&raw, true);
                let data = join_exec(&data_lines);
                Some((string_from(&event_type), data))
            },
        }
    }
}

} // verus!
