//! The streamed reply to a chat request: newline-delimited JSON that arrives in
//! chunks of bytes.
//!
//! A chunk can end anywhere, also inside a character: bytes are held until their
//! line is complete, and a line is decoded as a whole.
use crate::ollama::{
    parse_chat_chunk, ChatChunk, ErrorView, EventView, OllamaError, OllamaEvent,
};
use crate::text::decode_lossy;
use vstd::prelude::*;
use vstd::string::*;

verus! {

/// The byte that ends a line.
pub const NEWLINE: u8 = 10;

/// The complete lines of a text, in characters or in bytes, each with the newline
/// that ends it.
pub open spec fn complete_lines<T>(text: Seq<T>, newline: T) -> Seq<Seq<T>>
    decreases text.len(),
{
    if text.len() == 0 {
        Seq::empty()
    } else if text.last() == newline {
        complete_lines(text.drop_last(), newline).push(
            partial_line(text.drop_last(), newline).push(newline),
        )
    } else {
        complete_lines(text.drop_last(), newline)
    }
}

/// What follows the last newline of a text.
pub open spec fn partial_line<T>(text: Seq<T>, newline: T) -> Seq<T>
    decreases text.len(),
{
    if text.len() == 0 || text.last() == newline {
        Seq::empty()
    } else {
        partial_line(text.drop_last(), newline).push(text.last())
    }
}

/// What lines of bytes hold.
pub open spec fn bytes_of(lines: Seq<Vec<u8>>) -> Seq<Seq<u8>> {
    lines.map_values(|line: Vec<u8>| line@)
}

/// What texts hold.
pub open spec fn texts_of(texts: Seq<String>) -> Seq<Seq<char>> {
    texts.map_values(|text: String| text@)
}

/// The texts that lines of bytes decode to, each line as a whole.
pub open spec fn decoded_lines(lines: Seq<Seq<u8>>) -> Seq<Seq<char>> {
    lines.map_values(|line: Seq<u8>| crate::text::utf8_lossy(line))
}

/// Lines that are valid UTF-8 decode to the text that they encode.
pub open spec fn decode_faithfully(lines: Seq<Seq<u8>>) -> bool {
    forall|i: int|
        0 <= i < lines.len() && vstd::utf8::valid_utf8(lines[i]) ==> crate::text::utf8_lossy(
            #[trigger] lines[i],
        ) == vstd::utf8::decode_utf8(lines[i])
}

/// Splits bytes into their complete lines and what follows the last newline.
pub fn split_lines(bytes: &[u8]) -> (parts: (Vec<Vec<u8>>, Vec<u8>))
    ensures
        bytes_of(parts.0@) == complete_lines(bytes@, NEWLINE),
        parts.1@ == partial_line(bytes@, NEWLINE),
{
    let mut lines: Vec<Vec<u8>> = Vec::new();
    let mut line: Vec<u8> = Vec::new();
    let mut at: usize = 0;
    assert(bytes_of(lines@) =~= Seq::empty());
    while at < bytes.len()
        invariant
            at <= bytes@.len(),
            bytes_of(lines@) == complete_lines(bytes@.take(at as int), NEWLINE),
            line@ == partial_line(bytes@.take(at as int), NEWLINE),
        decreases bytes@.len() - at,
    {
        let ghost before = lines@;
        let byte: u8 = bytes[at];
        assert(bytes@.take(at + 1).drop_last() =~= bytes@.take(at as int));
        line.push(byte);
        if byte == NEWLINE {
            let ghost complete = line@;
            lines.push(line);
            line = Vec::new();
            assert(bytes_of(lines@) =~= bytes_of(before).push(complete));
        }
        at = at + 1;
    }
    assert(bytes@.take(at as int) =~= bytes@);
    (lines, line)
}

/// Which events a line can have.
pub type LineRelation = spec_fn(Seq<char>, Seq<EventView>) -> bool;

/// The events of a line by what a decoder made of it.
pub open spec fn by_decoder<F: Fn(&str) -> Option<ChatChunk>>(decode: F) -> LineRelation {
    |line: Seq<char>, events: Seq<EventView>| crate::ollama::line_yields(decode, line, events)
}

/// `events` are the events of the lines in their order.
pub open spec fn lines_yield(
    yields: LineRelation,
    lines: Seq<Seq<char>>,
    events: Seq<EventView>,
) -> bool
    decreases lines.len(),
{
    if lines.len() == 0 {
        events == Seq::<EventView>::empty()
    } else {
        exists|before: Seq<EventView>, last: Seq<EventView>|
            #![trigger before + last]
            events == before + last && lines_yield(yields, lines.drop_last(), before)
                && yields(lines.last(), last)
    }
}

/// What happens to the body of a reply as it is read.
#[derive(Debug)]
pub enum BodyPart {
    /// More bytes arrived.
    Chunk(Vec<u8>),
    /// Reading failed.
    Failed(String),
    /// The body is complete.
    Ended,
}

impl BodyPart {
    /// Whether nothing is read after this part: every part but a chunk is the last.
    pub fn is_last(&self) -> (last: bool)
        ensures
            last == !(*self is Chunk),
    {
        match self {
            BodyPart::Chunk(_) => false,
            BodyPart::Failed(_) => true,
            BodyPart::Ended => true,
        }
    }
}

/// What the items of the stream hold: events, or the error that broke it off.
pub open spec fn items_of(items: Seq<Result<OllamaEvent, OllamaError>>) -> Seq<
    Result<EventView, ErrorView>,
> {
    items.map_values(|item: Result<OllamaEvent, OllamaError>| item_of(item))
}

/// What an item of the stream holds.
pub open spec fn item_of(item: Result<OllamaEvent, OllamaError>) -> Result<EventView, ErrorView> {
    match item {
        Ok(event) => Ok(event@),
        Err(error) => Err(error@),
    }
}

/// Events as items of the stream.
pub open spec fn ok_items(events: Seq<EventView>) -> Seq<Result<EventView, ErrorView>> {
    events.map_values(|event: EventView| Ok::<EventView, ErrorView>(event))
}

/// The lines that are read when a part of the body arrives and `held` was begun: a
/// chunk completes lines, and otherwise the line that was begun is the last.
pub open spec fn lines_read(held: Seq<u8>, part: BodyPart) -> Seq<Seq<u8>> {
    match part {
        BodyPart::Chunk(bytes) => complete_lines(held + bytes@, NEWLINE),
        _ => seq![held],
    }
}

/// The error that a part of the body puts before its events.
pub open spec fn errors_of(part: BodyPart) -> Seq<Result<EventView, ErrorView>> {
    match part {
        BodyPart::Failed(text) => seq![
            Err::<EventView, ErrorView>(ErrorView::Transport(text@)),
        ],
        _ => Seq::empty(),
    }
}

/// `items` are what a part of the body adds to the stream when `held` are the bytes
/// of the line that was begun: the error of a failure, then the events of the lines
/// that are read.
pub open spec fn part_yields(
    yields: LineRelation,
    held: Seq<u8>,
    part: BodyPart,
    items: Seq<Result<EventView, ErrorView>>,
) -> bool {
    exists|events: Seq<EventView>|
        items == errors_of(part) + #[trigger] ok_items(events) && lines_yield(
            yields,
            decoded_lines(lines_read(held, part)),
            events,
        )
}

/// The bytes of the line that is begun after a part of the body.
pub open spec fn held_after(held: Seq<u8>, part: BodyPart) -> Seq<u8> {
    match part {
        BodyPart::Chunk(bytes) => partial_line(held + bytes@, NEWLINE),
        _ => Seq::empty(),
    }
}

/// Appends events to the items of a stream.
fn append_events(items: &mut Vec<Result<OllamaEvent, OllamaError>>, events: Vec<OllamaEvent>)
    ensures
        items_of(final(items)@) == items_of(old(items)@) + ok_items(
            crate::ollama::events_of(events@),
        ),
{
    let ghost start = items_of(items@);
    let ghost all = ok_items(crate::ollama::events_of(events@));
    assert(start + all.take(0) =~= start);
    for event in it: events
        invariant
            all == ok_items(crate::ollama::events_of(it.seq())),
            items_of(items@) == start + all.take(it.index()),
    {
        let ghost before = items@;
        let ghost entry = event;
        items.push(Ok(event));
        assert(items_of(items@) =~= items_of(before).push(Ok(entry@)));
        assert(all.take(it.index() + 1) =~= all.take(it.index()).push(all[it.index()]));
    }
    assert(all.take(all.len() as int) =~= all);
}

/// A chat reply that is being read: the bytes of the line that has begun and not
/// ended, and whether the reply is over.
#[derive(Debug)]
pub struct ChatStream {
    buffer: Vec<u8>,
    over: bool,
}

impl View for ChatStream {
    type V = Seq<u8>;

    closed spec fn view(&self) -> Seq<u8> {
        self.buffer@
    }
}

impl ChatStream {
    /// Whether the reply is over.
    pub closed spec fn over(self) -> bool {
        self.over
    }

    /// A reply of which nothing was read.
    pub fn new() -> (stream: ChatStream)
        ensures
            stream@ == Seq::<u8>::empty(),
            !stream.over(),
    {
        ChatStream { buffer: Vec::new(), over: false }
    }

    /// Whether the reply is over: nothing more is read of it.
    pub fn is_over(&self) -> (over: bool)
        ensures
            over == self.over(),
    {
        self.over
    }

    /// Takes a chunk of bytes and gives the lines that it completes.
    fn take_lines(&mut self, chunk: &[u8]) -> (lines: Vec<String>)
        ensures
            final(self).over() == old(self).over(),
            texts_of(lines@) == decoded_lines(complete_lines(old(self)@ + chunk@, NEWLINE)),
            final(self)@ == partial_line(old(self)@ + chunk@, NEWLINE),
            decode_faithfully(complete_lines(old(self)@ + chunk@, NEWLINE)),
    {
        let ghost held = self@;
        self.buffer.extend_from_slice(chunk);
        assert(self.buffer@ =~= held + chunk@);
        let (complete, rest) = split_lines(self.buffer.as_slice());
        self.buffer = rest;
        let ghost all = bytes_of(complete@);
        let mut lines: Vec<String> = Vec::new();
        let mut at: usize = 0;
        assert(texts_of(lines@) =~= decoded_lines(all.take(0)));
        while at < complete.len()
            invariant
                at <= complete.len(),
                all == bytes_of(complete@),
                texts_of(lines@) == decoded_lines(all.take(at as int)),
                decode_faithfully(all.take(at as int)),
            decreases complete.len() - at,
        {
            let ghost before = lines@;
            let line = decode_lossy(complete[at].as_slice());
            let ghost text = line@;
            lines.push(line);
            proof {
                assert(texts_of(lines@) =~= texts_of(before).push(text));
                assert(all.take(at + 1) =~= all.take(at as int).push(all[at as int]));
                assert(decoded_lines(all.take(at + 1)) =~= decoded_lines(all.take(at as int)).push(
                    text,
                ));
                assert forall|i: int|
                    0 <= i < at + 1 && vstd::utf8::valid_utf8(
                        all.take(at + 1)[i],
                    ) implies crate::text::utf8_lossy(#[trigger] all.take(at + 1)[i])
                    == vstd::utf8::decode_utf8(all.take(at + 1)[i]) by {
                    if i < at {
                        assert(all.take(at + 1)[i] == all.take(at as int)[i]);
                    }
                }
            }
            at = at + 1;
        }
        assert(all.take(at as int) =~= all);
        lines
    }

    /// Takes a part of the body and gives what it adds to the stream of events,
    /// with the decoder of chat lines. A part that is no chunk ends the reply, and a
    /// reply that is over takes nothing more.
    pub fn step<F: Fn(&str) -> Option<ChatChunk>>(&mut self, part: BodyPart, decode: &F) -> (items:
        Vec<Result<OllamaEvent, OllamaError>>)
        requires
            forall|text: &str| #[trigger] call_requires(*decode, (text,)),
        ensures
            final(self).over() == (old(self).over() || !(part is Chunk)),
            old(self).over() ==> items@.len() == 0 && final(self)@ == old(self)@,
            !old(self).over() ==> {
                &&& part_yields(by_decoder(*decode), old(self)@, part, items_of(items@))
                &&& final(self)@ == held_after(old(self)@, part)
                &&& decode_faithfully(lines_read(old(self)@, part))
            },
    {
        let mut items: Vec<Result<OllamaEvent, OllamaError>> = Vec::new();
        if self.over {
            return items;
        }
        self.over = part.is_last();
        let lines: Vec<String> = match part {
            BodyPart::Chunk(bytes) => self.take_lines(bytes.as_slice()),
            BodyPart::Failed(text) => {
                items.push(Err(OllamaError::Transport(text)));
                self.take_rest()
            },
            BodyPart::Ended => self.take_rest(),
        };
        let ghost mut events = Seq::<EventView>::empty();
        let ghost all = texts_of(lines@);
        assert(items_of(items@) =~= errors_of(part) + ok_items(events));
        let mut at: usize = 0;
        while at < lines.len()
            invariant
                at <= lines.len(),
                all == texts_of(lines@),
                forall|text: &str| #[trigger] call_requires(*decode, (text,)),
                items_of(items@) == errors_of(part) + ok_items(events),
                lines_yield(by_decoder(*decode), all.take(at as int), events),
            decreases lines.len() - at,
        {
            let line_events = parse_chat_chunk(lines[at].as_str(), decode);
            let ghost last = crate::ollama::events_of(line_events@);
            append_events(&mut items, line_events);
            proof {
                assert(all.take(at + 1).drop_last() =~= all.take(at as int));
                assert(all.take(at + 1).last() == lines[at as int]@);
                assert(errors_of(part) + ok_items(events + last) =~= errors_of(part) + ok_items(
                    events,
                ) + ok_items(last));
                events = events + last;
            }
            at = at + 1;
        }
        assert(all.take(at as int) =~= all);
        items
    }

    /// Takes what is left when nothing more follows, as the last line.
    fn take_rest(&mut self) -> (lines: Vec<String>)
        ensures
            final(self).over() == old(self).over(),
            texts_of(lines@) == decoded_lines(seq![old(self)@]),
            final(self)@ == Seq::<u8>::empty(),
            decode_faithfully(seq![old(self)@]),
    {
        let line = decode_lossy(self.buffer.as_slice());
        self.buffer = Vec::new();
        let mut lines: Vec<String> = Vec::new();
        lines.push(line);
        assert(texts_of(lines@) =~= decoded_lines(seq![old(self)@]));
        lines
    }
}

/// The lines and what follows them make up the text: nothing is lost, added or
/// reordered.
pub proof fn law_lines_make_up_text<T>(text: Seq<T>, newline: T)
    ensures
        complete_lines(text, newline).flatten() + partial_line(text, newline) == text,
    decreases text.len(),
{
    if text.len() > 0 {
        let shorter = text.drop_last();
        law_lines_make_up_text(shorter, newline);
        assert(text =~= shorter.push(text.last()));
        if text.last() == newline {
            complete_lines(shorter, newline).lemma_flatten_push(
                partial_line(shorter, newline).push(newline),
            );
        }
    }
    assert(complete_lines(text, newline).flatten() + partial_line(text, newline) =~= text);
}

/// A complete line holds one newline, at its end, and what follows holds none.
pub proof fn law_lines_end_in_their_only_newline<T>(text: Seq<T>, newline: T)
    ensures
        !partial_line(text, newline).contains(newline),
        forall|i: int|
            0 <= i < complete_lines(text, newline).len() ==> {
                let line = #[trigger] complete_lines(text, newline)[i];
                line.len() > 0 && line.last() == newline && !line.drop_last().contains(newline)
            },
    decreases text.len(),
{
    if text.len() > 0 {
        let shorter = text.drop_last();
        law_lines_end_in_their_only_newline(shorter, newline);
        if text.last() == newline {
            assert(partial_line(shorter, newline).push(newline).drop_last() =~= partial_line(
                shorter,
                newline,
            ));
        } else {
            assert forall|i: int| 0 <= i < partial_line(text, newline).len() implies partial_line(
                text,
                newline,
            )[i] != newline by {
                if i < partial_line(shorter, newline).len() {
                    assert(partial_line(shorter, newline).contains(
                        partial_line(shorter, newline)[i],
                    ));
                }
            }
        }
        assert forall|i: int| 0 <= i < complete_lines(text, newline).len() implies {
            let line = #[trigger] complete_lines(text, newline)[i];
            line.len() > 0 && line.last() == newline && !line.drop_last().contains(newline)
        } by {
            if i < complete_lines(shorter, newline).len() {
                assert(complete_lines(text, newline)[i] == complete_lines(shorter, newline)[i]);
            }
        }
    }
}

/// Where a text is cut makes no difference to its lines: those of the first chunk,
/// then those of the second with what the first left over.
pub proof fn law_chunking_makes_no_difference<T>(first: Seq<T>, second: Seq<T>, newline: T)
    ensures
        complete_lines(first + second, newline) == complete_lines(first, newline)
            + complete_lines(partial_line(first, newline) + second, newline),
        partial_line(first + second, newline) == partial_line(
            partial_line(first, newline) + second,
            newline,
        ),
    decreases second.len(),
{
    let begun = partial_line(first, newline);
    if second.len() == 0 {
        assert(first + second =~= first);
        assert(begun + second =~= begun);
        lemma_partial_line_is_partial(first, newline);
        assert(complete_lines(first, newline) + Seq::empty() =~= complete_lines(first, newline));
    } else {
        let shorter = second.drop_last();
        law_chunking_makes_no_difference(first, shorter, newline);
        assert((first + second).drop_last() =~= first + shorter);
        assert((begun + second).drop_last() =~= begun + shorter);
        if second.last() == newline {
            assert(complete_lines(first + second, newline) =~= complete_lines(first, newline)
                + complete_lines(begun + second, newline));
        }
    }
}

/// What follows the last newline has no complete line.
proof fn lemma_partial_line_is_partial<T>(text: Seq<T>, newline: T)
    ensures
        complete_lines(partial_line(text, newline), newline) == Seq::<Seq<T>>::empty(),
        partial_line(partial_line(text, newline), newline) == partial_line(text, newline),
    decreases text.len(),
{
    if text.len() > 0 && text.last() != newline {
        lemma_partial_line_is_partial(text.drop_last(), newline);
        assert(partial_line(text, newline).drop_last() =~= partial_line(
            text.drop_last(),
            newline,
        ));
    }
}

/// Parts of a body that are chunks alone: the reply is not over after them.
pub open spec fn are_chunks(parts: Seq<BodyPart>) -> bool {
    forall|i: int| 0 <= i < parts.len() ==> #[trigger] parts[i] is Chunk
}

/// The bytes of the line that is begun after the parts of a body. Parts after the
/// last make no difference.
pub open spec fn held_after_parts(parts: Seq<BodyPart>) -> Seq<u8>
    decreases parts.len(),
{
    if parts.len() == 0 {
        Seq::empty()
    } else if are_chunks(parts.drop_last()) {
        held_after(held_after_parts(parts.drop_last()), parts.last())
    } else {
        held_after_parts(parts.drop_last())
    }
}

/// `items` are what the parts of a body add to the stream one after the other. Parts
/// after the last add nothing.
pub open spec fn parts_yield(
    yields: LineRelation,
    parts: Seq<BodyPart>,
    items: Seq<Result<EventView, ErrorView>>,
) -> bool
    decreases parts.len(),
{
    if parts.len() == 0 {
        items == Seq::<Result<EventView, ErrorView>>::empty()
    } else if are_chunks(parts.drop_last()) {
        exists|before: Seq<Result<EventView, ErrorView>>, last: Seq<Result<EventView, ErrorView>>|
            #![trigger before + last]
            items == before + last && parts_yield(yields, parts.drop_last(), before)
                && part_yields(yields, held_after_parts(parts.drop_last()), parts.last(), last)
    } else {
        parts_yield(yields, parts.drop_last(), items)
    }
}

/// A reply is over after a part that is no chunk, and only then: what comes after it
/// adds nothing to the stream.
pub proof fn law_nothing_follows_the_end_of_a_reply(
    yields: LineRelation,
    parts: Seq<BodyPart>,
    more: Seq<BodyPart>,
    items: Seq<Result<EventView, ErrorView>>,
)
    requires
        !are_chunks(parts),
        parts_yield(yields, parts + more, items),
    ensures
        !are_chunks(parts + more),
        parts_yield(yields, parts, items),
        held_after_parts(parts + more) == held_after_parts(parts),
    decreases more.len(),
{
    let all = parts + more;
    let end = choose|i: int| 0 <= i < parts.len() && !(#[trigger] parts[i] is Chunk);
    assert(all[end] == parts[end]);
    if more.len() == 0 {
        assert(all =~= parts);
    } else {
        assert(all.drop_last() =~= parts + more.drop_last());
        assert((parts + more.drop_last())[end] == parts[end]);
        law_nothing_follows_the_end_of_a_reply(yields, parts, more.drop_last(), items);
    }
}

/// The bytes that the chunks of a body hold, one after the other.
pub open spec fn body_bytes(parts: Seq<BodyPart>) -> Seq<u8>
    decreases parts.len(),
{
    if parts.len() == 0 {
        Seq::empty()
    } else {
        body_bytes(parts.drop_last()) + match parts.last() {
            BodyPart::Chunk(bytes) => bytes@,
            _ => Seq::empty(),
        }
    }
}

/// `items` are the events of the complete lines of bytes, in their order.
pub open spec fn bytes_yield(
    yields: LineRelation,
    bytes: Seq<u8>,
    items: Seq<Result<EventView, ErrorView>>,
) -> bool {
    exists|events: Seq<EventView>|
        items == #[trigger] ok_items(events) && lines_yield(
            yields,
            decoded_lines(complete_lines(bytes, NEWLINE)),
            events,
        )
}

/// Chunks have the events of the complete lines of their bytes, in their order, and
/// leave what follows the last newline: whatever the chunks are, and wherever they
/// cut the bytes.
pub proof fn law_chunks_have_the_events_of_their_bytes(
    yields: LineRelation,
    parts: Seq<BodyPart>,
    items: Seq<Result<EventView, ErrorView>>,
)
    requires
        are_chunks(parts),
        parts_yield(yields, parts, items),
    ensures
        bytes_yield(yields, body_bytes(parts), items),
        held_after_parts(parts) == partial_line(body_bytes(parts), NEWLINE),
    decreases parts.len(),
{
    if parts.len() == 0 {
        assert(decoded_lines(Seq::empty()) =~= Seq::empty());
        assert(items =~= ok_items(Seq::empty()));
    } else {
        let earlier = parts.drop_last();
        let part = parts.last();
        let bytes = body_bytes(earlier);
        let (before, last) = choose|
            before: Seq<Result<EventView, ErrorView>>,
            last: Seq<Result<EventView, ErrorView>>,
        |
            #![trigger before + last]
            items == before + last && parts_yield(yields, earlier, before) && part_yields(
                yields,
                held_after_parts(earlier),
                part,
                last,
            );
        law_chunks_have_the_events_of_their_bytes(yields, earlier, before);
        assert(parts[parts.len() - 1] is Chunk);
        let chunk = part->Chunk_0@;
        law_chunking_makes_no_difference(bytes, chunk, NEWLINE);
        let lines = complete_lines(bytes, NEWLINE);
        let more_lines = complete_lines(partial_line(bytes, NEWLINE) + chunk, NEWLINE);
        let events = choose|events: Seq<EventView>|
            before == #[trigger] ok_items(events) && lines_yield(
                yields,
                decoded_lines(lines),
                events,
            );
        let more = choose|more: Seq<EventView>|
            last == errors_of(part) + #[trigger] ok_items(more) && lines_yield(
                yields,
                decoded_lines(lines_read(held_after_parts(earlier), part)),
                more,
            );
        law_events_of_lines_add_up(
            yields,
            decoded_lines(lines),
            events,
            decoded_lines(more_lines),
            more,
        );
        assert(decoded_lines(lines + more_lines) =~= decoded_lines(lines) + decoded_lines(
            more_lines,
        ));
        assert(items =~= ok_items(events + more));
    }
}

/// `items` are what a body amounts to that was read to its end or failure: the
/// events of its complete lines, then what the end adds, with what follows the last
/// newline as the last line.
pub open spec fn body_yields(
    yields: LineRelation,
    body: Seq<u8>,
    end: BodyPart,
    items: Seq<Result<EventView, ErrorView>>,
) -> bool {
    exists|before: Seq<Result<EventView, ErrorView>>, last: Seq<Result<EventView, ErrorView>>|
        #![trigger before + last]
        items == before + last && bytes_yield(yields, body, before) && part_yields(
            yields,
            partial_line(body, NEWLINE),
            end,
            last,
        )
}

/// A reply that is read to its end or failure has the events of the lines of its
/// bytes, wherever its chunks cut them.
pub proof fn law_reply_has_the_events_of_its_bytes(
    yields: LineRelation,
    chunks: Seq<BodyPart>,
    end: BodyPart,
    items: Seq<Result<EventView, ErrorView>>,
)
    requires
        are_chunks(chunks),
        !(end is Chunk),
        parts_yield(yields, chunks.push(end), items),
    ensures
        body_yields(yields, body_bytes(chunks), end, items),
{
    let parts = chunks.push(end);
    assert(parts.drop_last() =~= chunks);
    let (before, last) = choose|
        before: Seq<Result<EventView, ErrorView>>,
        last: Seq<Result<EventView, ErrorView>>,
    |
        #![trigger before + last]
        items == before + last && parts_yield(yields, chunks, before) && part_yields(
            yields,
            held_after_parts(chunks),
            end,
            last,
        );
    law_chunks_have_the_events_of_their_bytes(yields, chunks, before);
}

/// Lines one after the other have their events one after the other.
pub proof fn law_events_of_lines_add_up(
    yields: LineRelation,
    first_lines: Seq<Seq<char>>,
    first: Seq<EventView>,
    second_lines: Seq<Seq<char>>,
    second: Seq<EventView>,
)
    requires
        lines_yield(yields, first_lines, first),
        lines_yield(yields, second_lines, second),
    ensures
        lines_yield(yields, first_lines + second_lines, first + second),
    decreases second_lines.len(),
{
    if second_lines.len() == 0 {
        assert(first_lines + second_lines =~= first_lines);
        assert(first + second =~= first);
    } else {
        let (before, last) = choose|before: Seq<EventView>, last: Seq<EventView>|
            #![trigger before + last]
            second == before + last && lines_yield(yields, second_lines.drop_last(), before)
                && yields(second_lines.last(), last);
        law_events_of_lines_add_up(yields, first_lines, first, second_lines.drop_last(), before);
        assert((first_lines + second_lines).drop_last() =~= first_lines
            + second_lines.drop_last());
        assert(first + second =~= (first + before) + last);
    }
}

/// What texts are in UTF-8.
pub open spec fn encoded_lines(lines: Seq<Seq<char>>) -> Seq<Seq<u8>> {
    lines.map_values(|line: Seq<char>| vstd::utf8::encode_utf8(line))
}

/// The lines of the bytes of a text are the bytes of its lines: splitting bytes is
/// splitting text, and no line of a reply in UTF-8 holds a part of a character.
pub proof fn law_lines_of_bytes_are_lines_of_text(text: Seq<char>)
    ensures
        complete_lines(vstd::utf8::encode_utf8(text), NEWLINE) == encoded_lines(
            complete_lines(text, '\n'),
        ),
        partial_line(vstd::utf8::encode_utf8(text), NEWLINE) == vstd::utf8::encode_utf8(
            partial_line(text, '\n'),
        ),
    decreases text.len(),
{
    if text.len() == 0 {
        assert(encoded_lines(Seq::empty()) =~= Seq::empty());
    } else {
        let shorter = text.drop_last();
        let c = text.last();
        let bytes = vstd::utf8::encode_utf8(seq![c]);
        let begun = partial_line(shorter, '\n');
        law_lines_of_bytes_are_lines_of_text(shorter);
        assert(text =~= shorter + seq![c]);
        crate::text::lemma_encoding_concatenates(shorter, seq![c]);
        assert(begun.push(c) =~= begun + seq![c]);
        crate::text::lemma_encoding_concatenates(begun, seq![c]);
        let before = vstd::utf8::encode_utf8(shorter);
        if c == '\n' {
            assert(vstd::utf8::is_ascii_chars(seq![c]));
            vstd::utf8::is_ascii_chars_encode_utf8(seq![c]);
            assert(bytes =~= seq![NEWLINE]);
            assert((before + bytes).drop_last() =~= before);
            assert(vstd::utf8::encode_utf8(begun.push('\n')) =~= vstd::utf8::encode_utf8(
                begun,
            ).push(NEWLINE));
            assert(encoded_lines(complete_lines(text, '\n')) =~= encoded_lines(
                complete_lines(shorter, '\n'),
            ).push(vstd::utf8::encode_utf8(begun.push('\n'))));
        } else {
            lemma_only_a_newline_has_its_byte(c);
            lemma_no_newline_extends_the_line(before, bytes);
        }
    }
}

/// A reply in UTF-8 is read as the lines of its text, where lines that are valid
/// UTF-8 decode to the text that they encode.
pub proof fn law_reply_in_utf8_has_the_lines_of_its_text(text: Seq<char>)
    requires
        decode_faithfully(complete_lines(vstd::utf8::encode_utf8(text), NEWLINE)),
        decode_faithfully(seq![partial_line(vstd::utf8::encode_utf8(text), NEWLINE)]),
    ensures
        decoded_lines(complete_lines(vstd::utf8::encode_utf8(text), NEWLINE)) == complete_lines(
            text,
            '\n',
        ),
        decoded_lines(seq![partial_line(vstd::utf8::encode_utf8(text), NEWLINE)]) == seq![
            partial_line(text, '\n'),
        ],
{
    let bytes = vstd::utf8::encode_utf8(text);
    let lines = complete_lines(text, '\n');
    let rest = partial_line(text, '\n');
    law_lines_of_bytes_are_lines_of_text(text);
    assert forall|i: int| 0 <= i < lines.len() implies #[trigger] decoded_lines(
        complete_lines(bytes, NEWLINE),
    )[i] == lines[i] by {
        vstd::utf8::encode_utf8_valid_utf8(lines[i]);
        vstd::utf8::encode_utf8_decode_utf8(lines[i]);
        assert(complete_lines(bytes, NEWLINE)[i] == vstd::utf8::encode_utf8(lines[i]));
    }
    assert(decoded_lines(complete_lines(bytes, NEWLINE)) =~= lines);
    vstd::utf8::encode_utf8_valid_utf8(rest);
    vstd::utf8::encode_utf8_decode_utf8(rest);
    let last = seq![partial_line(bytes, NEWLINE)];
    assert(last[0] == vstd::utf8::encode_utf8(rest));
    assert(decoded_lines(last) =~= seq![rest]);
}

/// No character but the newline has the byte of the newline in its encoding.
proof fn lemma_only_a_newline_has_its_byte(c: char)
    requires
        c != '\n',
    ensures
        forall|i: int|
            0 <= i < vstd::utf8::encode_utf8(seq![c]).len() ==> #[trigger] vstd::utf8::encode_utf8(
                seq![c],
            )[i] != NEWLINE,
{
    let scalar = c as u32;
    reveal_with_fuel(vstd::utf8::encode_utf8, 2);
    assert(vstd::utf8::encode_utf8(seq![c]) =~= vstd::utf8::encode_scalar(scalar));
    assert(scalar < 0x80 ==> (scalar & 0x7f) as u8 == scalar) by (bit_vector);
    assert(forall|low: u8| #[trigger] (0x80u8 | low) != 10) by (bit_vector);
    assert(forall|low: u8| #[trigger] (0xc0u8 | low) != 10) by (bit_vector);
    assert(forall|low: u8| #[trigger] (0xe0u8 | low) != 10) by (bit_vector);
    assert(forall|low: u8| #[trigger] (0xf0u8 | low) != 10) by (bit_vector);
}

/// Bytes without a newline complete no line: they extend the one that was begun.
proof fn lemma_no_newline_extends_the_line(first: Seq<u8>, second: Seq<u8>)
    requires
        forall|i: int| 0 <= i < second.len() ==> #[trigger] second[i] != NEWLINE,
    ensures
        complete_lines(first + second, NEWLINE) == complete_lines(first, NEWLINE),
        partial_line(first + second, NEWLINE) == partial_line(first, NEWLINE) + second,
    decreases second.len(),
{
    if second.len() == 0 {
        assert(first + second =~= first);
        assert(partial_line(first, NEWLINE) + second =~= partial_line(first, NEWLINE));
    } else {
        let shorter = second.drop_last();
        lemma_no_newline_extends_the_line(first, shorter);
        assert((first + second).drop_last() =~= first + shorter);
        assert(partial_line(first + second, NEWLINE) =~= partial_line(first, NEWLINE) + second);
    }
}

// ---- What results hold ----
/// Splitting loses nothing: the lines and what follows them make up the bytes, each line
/// ends in its only byte of the newline, and what follows holds none.
pub proof fn law_splitting_loses_nothing(bytes: Seq<u8>, lines: Seq<Vec<u8>>, rest: Vec<u8>)
    requires
        bytes_of(lines) == complete_lines(bytes, NEWLINE),
        rest@ == partial_line(bytes, NEWLINE),
    ensures
        bytes_of(lines).flatten() + rest@ == bytes,
        bytes_of(lines).len() == lines.len(),
        forall|i: int| 0 <= i < lines.len() ==> bytes_of(lines)[i] == (#[trigger] lines[i])@,
        forall|i: int|
            0 <= i < lines.len() ==> {
                let line = (#[trigger] lines[i])@;
                line.len() > 0 && line.last() == 10 && !line.drop_last().contains(10)
            },
        !rest@.contains(10),
{
    law_lines_make_up_text(bytes, NEWLINE);
    law_lines_end_in_their_only_newline(bytes, NEWLINE);
    assert forall|i: int| 0 <= i < lines.len() implies ({
        let line = (#[trigger] lines[i])@;
        line.len() > 0 && line.last() == 10 && !line.drop_last().contains(10)
    }) by {
        assert(bytes_of(lines)[i] == lines[i]@);
        let line = complete_lines(bytes, NEWLINE)[i];
        assert(line == lines[i]@);
    }
}

/// No byte of a body is lost or read twice: what is read of a chunk and what is held
/// after it make up what was held and the chunk, and at the end what is held is read.
pub proof fn law_no_byte_is_lost(held: Seq<u8>, part: BodyPart)
    ensures
        part matches BodyPart::Chunk(bytes) ==> lines_read(held, part).flatten() + held_after(
            held,
            part,
        ) == held + bytes@,
        !(part is Chunk) ==> lines_read(held, part) == seq![held] && held_after(held, part).len()
            == 0,
{
    if part is Chunk {
        law_lines_make_up_text(held + part->Chunk_0@, NEWLINE);
    }
}

/// A chunk completes the lines that end in it, and no byte of the newline is held.
pub proof fn law_a_chunk_completes_its_lines(held: Seq<u8>, bytes: Vec<u8>)
    ensures
        ({
            let part = BodyPart::Chunk(bytes);
            &&& !held_after(held, part).contains(10)
            &&& forall|i: int|
                0 <= i < lines_read(held, part).len() ==> {
                    let line = #[trigger] lines_read(held, part)[i];
                    line.len() > 0 && line.last() == 10 && !line.drop_last().contains(10)
                }
        }),
{
    law_lines_end_in_their_only_newline(held + bytes@, NEWLINE);
}

/// Lines are decoded one for one, each as a whole.
pub proof fn law_each_line_is_decoded_whole(lines: Seq<Seq<u8>>, texts: Seq<String>)
    requires
        texts_of(texts) == decoded_lines(lines),
    ensures
        texts.len() == lines.len(),
        forall|i: int|
            0 <= i < lines.len() ==> (#[trigger] texts[i])@ == crate::text::utf8_lossy(lines[i]),
{
    assert(texts_of(texts).len() == texts.len());
    assert forall|i: int| 0 <= i < lines.len() implies (#[trigger] texts[i])@
        == crate::text::utf8_lossy(lines[i]) by {
        assert(texts_of(texts)[i] == texts[i]@);
    }
}

/// No lines have no events, and one line has its own.
pub proof fn law_one_line_has_its_own_events(
    yields: LineRelation,
    line: Seq<char>,
    events: Seq<EventView>,
)
    ensures
        lines_yield(yields, Seq::empty(), events) <==> events.len() == 0,
        lines_yield(yields, seq![line], events) <==> yields(line, events),
{
    let none = Seq::<EventView>::empty();
    reveal_with_fuel(lines_yield, 3);
    assert(seq![line].drop_last() =~= Seq::empty());
    assert(events.len() == 0 ==> events =~= none);
    assert(none + events =~= events);
    if lines_yield(yields, seq![line], events) {
        let (before, last) = choose|before: Seq<EventView>, last: Seq<EventView>|
            #![trigger before + last]
            events == before + last && lines_yield(yields, seq![line].drop_last(), before)
                && yields(line, last);
        assert(before + last =~= last);
    }
    if yields(line, events) {
        assert(lines_yield(yields, seq![line].drop_last(), none));
        assert(events == none + events);
    }
}

/// The events of a line are those that the parsing of chat lines gives it.
pub proof fn law_a_decoder_gives_a_line_its_events<F: Fn(&str) -> Option<ChatChunk>>(
    decode: F,
    line: Seq<char>,
    events: Seq<EventView>,
)
    ensures
        by_decoder(decode)(line, events) <==> crate::ollama::line_yields(decode, line, events),
{
}

/// A chunk adds events alone: those of the lines that it completes, in their order.
pub proof fn law_a_chunk_adds_the_events_of_its_lines(
    yields: LineRelation,
    held: Seq<u8>,
    bytes: Vec<u8>,
    items: Seq<Result<OllamaEvent, OllamaError>>,
)
    requires
        part_yields(yields, held, BodyPart::Chunk(bytes), items_of(items)),
    ensures
        exists|events: Seq<OllamaEvent>|
            items.len() == events.len() && (forall|i: int|
                0 <= i < items.len() ==> (#[trigger] items[i] matches Ok(event) && event
                    == events[i])) && #[trigger] lines_yield(
                yields,
                decoded_lines(complete_lines(held + bytes@, NEWLINE)),
                crate::ollama::events_of(events),
            ),
{
    let part = BodyPart::Chunk(bytes);
    let views = choose|events: Seq<EventView>|
        items_of(items) == errors_of(part) + #[trigger] ok_items(events) && lines_yield(
            yields,
            decoded_lines(lines_read(held, part)),
            events,
        );
    assert(items_of(items) =~= ok_items(views));
    lemma_ok_items_are_events(items, views);
}

/// Items that hold events are events.
proof fn lemma_ok_items_are_events(
    items: Seq<Result<OllamaEvent, OllamaError>>,
    views: Seq<EventView>,
)
    requires
        items_of(items) == ok_items(views),
    ensures
        ({
            let events = items.map_values(|item: Result<OllamaEvent, OllamaError>| item->Ok_0);
            &&& items.len() == events.len() == views.len()
            &&& forall|i: int|
                0 <= i < items.len() ==> (#[trigger] items[i] matches Ok(event) && event
                    == events[i])
            &&& crate::ollama::events_of(events) == views
        }),
{
    let events = items.map_values(|item: Result<OllamaEvent, OllamaError>| item->Ok_0);
    assert(items_of(items).len() == items.len());
    assert forall|i: int| 0 <= i < items.len() implies (#[trigger] items[i] matches Ok(event)
        && event == events[i] && event@ == views[i]) by {
        assert(items_of(items)[i] == item_of(items[i]));
        assert(ok_items(views)[i] == Ok::<EventView, ErrorView>(views[i]));
    }
    assert(crate::ollama::events_of(events) =~= views);
}

/// The end of a body adds the events of what was held, as the last line, and a failure
/// its error before them, as a transport error in its words.
pub proof fn law_the_end_adds_the_events_of_what_was_held(
    yields: LineRelation,
    held: Seq<u8>,
    part: BodyPart,
    items: Seq<Result<OllamaEvent, OllamaError>>,
)
    requires
        !(part is Chunk),
        part_yields(yields, held, part, items_of(items)),
    ensures
        part matches BodyPart::Failed(text) ==> items.len() > 0 && (items[0] matches Err(
            OllamaError::Transport(words),
        ) && words@ == text@),
        ({
            let told = if part is Failed {
                items.drop_first()
            } else {
                items
            };
            exists|events: Seq<OllamaEvent>|
                told.len() == events.len() && (forall|i: int|
                    0 <= i < told.len() ==> (#[trigger] told[i] matches Ok(event) && event
                        == events[i])) && #[trigger] yields(
                    crate::text::utf8_lossy(held),
                    crate::ollama::events_of(events),
                )
        }),
{
    let views = choose|events: Seq<EventView>|
        items_of(items) == errors_of(part) + #[trigger] ok_items(events) && lines_yield(
            yields,
            decoded_lines(lines_read(held, part)),
            events,
        );
    assert(decoded_lines(seq![held]) =~= seq![crate::text::utf8_lossy(held)]);
    law_one_line_has_its_own_events(yields, crate::text::utf8_lossy(held), views);
    assert(items_of(items).len() == items.len());
    if part is Failed {
        assert(items_of(items)[0] == item_of(items[0]));
        let told = items.drop_first();
        assert(items_of(told) =~= items_of(items).drop_first());
        assert(items_of(told) =~= ok_items(views));
        lemma_ok_items_are_events(told, views);
    } else {
        assert(items_of(items) =~= ok_items(views));
        lemma_ok_items_are_events(items, views);
    }
}

/// The bytes of a body are those of its chunks, one after the other.
pub proof fn law_one_more_chunk_adds_its_bytes(parts: Seq<BodyPart>, bytes: Vec<u8>)
    ensures
        body_bytes(Seq::empty()).len() == 0,
        body_bytes(parts.push(BodyPart::Chunk(bytes))) == body_bytes(parts) + bytes@,
{
    assert(parts.push(BodyPart::Chunk(bytes)).drop_last() =~= parts);
}

} // verus!
