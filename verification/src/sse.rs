//! The event stream filter: raw transport elements in, normalized events out.
//!
//! The transport (owned by the surrounding application code) yields a sequence
//! whose elements are raw events, protocol comments, or transport errors.
//! This module holds the stateless one-to-zero-or-one mapping applied to each
//! element, the mathematical description of that mapping over whole sequences,
//! and the laws that hold of it.

use vstd::prelude::*;

verus! {

/// A transport-level failure, delivered in line with normalized events.
/// The adapter never interprets it: the value is passed through verbatim.
#[derive(Debug, PartialEq, Eq)]
pub struct StreamError {
    pub detail: String,
}

impl View for StreamError {
    type V = Seq<char>;

    open spec fn view(&self) -> Seq<char> {
        self.detail@
    }
}

/// A raw protocol element as the transport frames it: either a named event
/// carrying a data string, or a comment line.
#[derive(Debug, PartialEq, Eq)]
pub enum RawEvent {
    Event { event_type: String, data: String },
    Comment(String),
}

/// The mathematical image of one raw stream element.
pub enum ItemView {
    Event { event_type: Seq<char>, data: Seq<char> },
    Comment(Seq<char>),
    Error(Seq<char>),
}

/// The mathematical image of one output element: a normalized event
/// (name and optional payload) or a passed-through transport error.
pub enum OutView {
    Event { event_type: Seq<char>, payload: Option<Seq<char>> },
    Error(Seq<char>),
}

/// The reserved event name used by the protocol solely to keep the
/// connection open.
pub open spec fn keep_alive_name() -> Seq<char> {
    "keep-alive"@
}

/// The 4-character sentinel data string that normalizes to an absent payload.
pub open spec fn null_sentinel() -> Seq<char> {
    "null"@
}

/// What one raw stream element is, mathematically.
pub open spec fn item_view(item: Result<RawEvent, StreamError>) -> ItemView {
    match item {
        Ok(RawEvent::Event { event_type, data }) => ItemView::Event {
            event_type: event_type@,
            data: data@,
        },
        Ok(RawEvent::Comment(c)) => ItemView::Comment(c@),
        Err(e) => ItemView::Error(e@),
    }
}

/// What one output element is, mathematically.
pub open spec fn out_view(out: Result<(String, Option<String>), StreamError>) -> OutView {
    match out {
        Ok((event_type, payload)) => OutView::Event {
            event_type: event_type@,
            payload: match payload {
                Some(p) => Some(p@),
                None => None,
            },
        },
        Err(e) => OutView::Error(e@),
    }
}

pub open spec fn opt_out_view(out: Option<Result<(String, Option<String>), StreamError>>) -> Option<
    OutView,
> {
    match out {
        Some(o) => Some(out_view(o)),
        None => None,
    }
}

/// Payload normalization: a data string that is exactly the sentinel maps to
/// no payload; any other data string is kept verbatim.
pub open spec fn payload_of(data: Seq<char>) -> Option<Seq<char>> {
    if data == null_sentinel() {
        None
    } else {
        Some(data)
    }
}

/// The one-element filtering / normalization rule, in order:
/// a transport error passes through unchanged; a comment is discarded;
/// a `keep-alive` event is discarded unless the caller opted into keep-alive
/// visibility; any other event is normalized, its data mapped to no payload
/// when it is exactly the sentinel and kept verbatim otherwise.
pub open spec fn filter_one(item: ItemView, keep_alive_friendly: bool) -> Option<OutView> {
    match item {
        ItemView::Event { event_type, data } => {
            if event_type == keep_alive_name() && !keep_alive_friendly {
                None
            } else {
                Some(OutView::Event { event_type, payload: payload_of(data) })
            }
        },
        ItemView::Comment(_) => None,
        ItemView::Error(e) => Some(OutView::Error(e)),
    }
}

/// A discarded element contributes nothing to the output; a surviving one
/// contributes exactly itself.
pub open spec fn filter_one_seq(item: ItemView, keep_alive_friendly: bool) -> Seq<OutView> {
    match filter_one(item, keep_alive_friendly) {
        Some(o) => seq![o],
        None => Seq::empty(),
    }
}

/// The whole-sequence image of the filter: the ordered filter/map of the
/// one-element rule over the raw sequence, relative order of surviving
/// elements unchanged.
pub open spec fn filter_seq(s: Seq<ItemView>, keep_alive_friendly: bool) -> Seq<OutView>
    decreases s.len(),
{
    if s.len() == 0 {
        Seq::empty()
    } else {
        filter_one_seq(s[0], keep_alive_friendly) + filter_seq(s.drop_first(), keep_alive_friendly)
    }
}

/// Applies the filtering / normalization rule to one raw stream element.
/// Returns `None` when the element is protocol noise that must not reach the
/// caller, and `Some` of the normalized event or passed-through error
/// otherwise.
pub fn normalize_event(item: Result<RawEvent, StreamError>, keep_alive_friendly: bool) -> (r:
    Option<Result<(String, Option<String>), StreamError>>)
    ensures
        opt_out_view(r) == filter_one(item_view(item), keep_alive_friendly),
{
    match item {
        Ok(RawEvent::Event { event_type, data }) => {
            let keep_alive: String = "keep-alive".to_owned();
            if event_type.eq(&keep_alive) && !keep_alive_friendly {
                None
            } else {
                let sentinel: String = "null".to_owned();
                if data.eq(&sentinel) {
                    Some(Ok((event_type, None)))
                } else {
                    Some(Ok((event_type, Some(data))))
                }
            }
        },
        Ok(RawEvent::Comment(_)) => None,
        Err(e) => Some(Err(e)),
    }
}

/// The filter distributes over concatenation of raw sequences: filtering a
/// sequence piecewise and joining the pieces gives the filtered whole, so no
/// element is ever moved across another.
pub proof fn lemma_filter_seq_append(a: Seq<ItemView>, b: Seq<ItemView>, keep_alive_friendly: bool)
    ensures
        filter_seq(a + b, keep_alive_friendly) == filter_seq(a, keep_alive_friendly) + filter_seq(
            b,
            keep_alive_friendly,
        ),
    decreases a.len(),
{
    if a.len() == 0 {
        assert(a + b =~= b);
        assert(filter_seq(a, keep_alive_friendly) + filter_seq(b, keep_alive_friendly) =~= filter_seq(
            b,
            keep_alive_friendly,
        ));
    } else {
        assert((a + b)[0] == a[0]);
        assert((a + b).drop_first() =~= a.drop_first() + b);
        lemma_filter_seq_append(a.drop_first(), b, keep_alive_friendly);
        assert(filter_one_seq(a[0], keep_alive_friendly) + (filter_seq(
            a.drop_first(),
            keep_alive_friendly,
        ) + filter_seq(b, keep_alive_friendly)) =~= (filter_one_seq(a[0], keep_alive_friendly)
            + filter_seq(a.drop_first(), keep_alive_friendly)) + filter_seq(
            b,
            keep_alive_friendly,
        ));
    }
}

/// Extending the raw sequence by one element extends the output by exactly
/// that element's contribution.
pub proof fn lemma_filter_seq_push(s: Seq<ItemView>, e: ItemView, keep_alive_friendly: bool)
    ensures
        filter_seq(s.push(e), keep_alive_friendly) == filter_seq(s, keep_alive_friendly)
            + filter_one_seq(e, keep_alive_friendly),
{
    assert(s.push(e) =~= s + seq![e]);
    lemma_filter_seq_append(s, seq![e], keep_alive_friendly);
    let s1 = seq![e];
    assert(s1.len() == 1);
    assert(s1[0] == e);
    assert(s1.drop_first() =~= Seq::<ItemView>::empty());
    assert(filter_seq(Seq::<ItemView>::empty(), keep_alive_friendly) =~= Seq::<OutView>::empty());
    assert(filter_seq(s1, keep_alive_friendly) == filter_one_seq(e, keep_alive_friendly)
        + filter_seq(s1.drop_first(), keep_alive_friendly));
    assert(filter_one_seq(e, keep_alive_friendly) + Seq::<OutView>::empty() =~= filter_one_seq(
        e,
        keep_alive_friendly,
    ));
}

/// Keep-alive suppression: a raw event named `keep-alive` produces no output
/// element while keep-alive visibility is disabled, and exactly one
/// normalized element when it is enabled — whatever data it carries.
pub proof fn lemma_keep_alive_suppression(data: Seq<char>)
    ensures
        filter_one((ItemView::Event { event_type: keep_alive_name(), data }), false) is None,
        filter_one((ItemView::Event { event_type: keep_alive_name(), data }), true) == Some(
            (OutView::Event { event_type: keep_alive_name(), payload: payload_of(data) }),
        ),
{
}

/// Comment elision: a raw comment produces no output element, whatever it
/// says and whichever way keep-alive visibility is configured.
pub proof fn lemma_comment_elision(comment: Seq<char>, keep_alive_friendly: bool)
    ensures
        filter_one(ItemView::Comment(comment), keep_alive_friendly) is None,
{
}

/// Null-payload normalization: a surviving raw event whose data is exactly
/// the sentinel comes out with no payload; one with any other data comes out
/// with that data verbatim.
pub proof fn lemma_null_payload_normalization(
    event_type: Seq<char>,
    data: Seq<char>,
    keep_alive_friendly: bool,
)
    requires
        keep_alive_friendly || event_type != keep_alive_name(),
    ensures
        data == null_sentinel() ==> filter_one(
            (ItemView::Event { event_type, data }),
            keep_alive_friendly,
        ) == Some((OutView::Event { event_type, payload: None::<Seq<char>> })),
        data != null_sentinel() ==> filter_one(
            (ItemView::Event { event_type, data }),
            keep_alive_friendly,
        ) == Some((OutView::Event { event_type, payload: Some(data) })),
{
}

/// The output splits at any position of the raw sequence into the filtered
/// image of what precedes the element, the element's own contribution, and
/// the filtered image of what follows it.
pub proof fn lemma_filter_seq_split(s: Seq<ItemView>, i: int, keep_alive_friendly: bool)
    requires
        0 <= i < s.len(),
    ensures
        filter_seq(s, keep_alive_friendly) == filter_seq(s.take(i), keep_alive_friendly)
            + filter_one_seq(s[i], keep_alive_friendly) + filter_seq(
            s.skip(i + 1),
            keep_alive_friendly,
        ),
{
    assert(s =~= s.take(i) + (seq![s[i]] + s.skip(i + 1)));
    lemma_filter_seq_append(s.take(i), seq![s[i]] + s.skip(i + 1), keep_alive_friendly);
    lemma_filter_seq_append(seq![s[i]], s.skip(i + 1), keep_alive_friendly);
    lemma_filter_seq_push(Seq::empty(), s[i], keep_alive_friendly);
    assert(Seq::<ItemView>::empty().push(s[i]) =~= seq![s[i]]);
    assert(filter_seq(Seq::<ItemView>::empty(), keep_alive_friendly) + filter_one_seq(
        s[i],
        keep_alive_friendly,
    ) =~= filter_one_seq(s[i], keep_alive_friendly));
    assert(filter_seq(s.take(i), keep_alive_friendly) + (filter_one_seq(s[i], keep_alive_friendly)
        + filter_seq(s.skip(i + 1), keep_alive_friendly)) =~= filter_seq(
        s.take(i),
        keep_alive_friendly,
    ) + filter_one_seq(s[i], keep_alive_friendly) + filter_seq(
        s.skip(i + 1),
        keep_alive_friendly,
    ));
}

/// Keep-alive suppression over a whole stream: a `keep-alive` event at any
/// position leaves no trace in the output while keep-alive visibility is
/// disabled, and contributes exactly one normalized element when it is
/// enabled.
pub proof fn lemma_keep_alive_suppression_in_stream(s: Seq<ItemView>, i: int, data: Seq<char>)
    requires
        0 <= i < s.len(),
        s[i] == (ItemView::Event { event_type: keep_alive_name(), data }),
    ensures
        filter_seq(s, false) == filter_seq(s.take(i), false) + filter_seq(s.skip(i + 1), false),
        filter_seq(s, true) == filter_seq(s.take(i), true) + seq![
            OutView::Event { event_type: keep_alive_name(), payload: payload_of(data) },
        ] + filter_seq(s.skip(i + 1), true),
{
    lemma_filter_seq_split(s, i, false);
    lemma_filter_seq_split(s, i, true);
    assert(filter_one_seq(s[i], false) =~= Seq::<OutView>::empty());
    assert(filter_seq(s.take(i), false) + Seq::<OutView>::empty() =~= filter_seq(s.take(i), false));
    assert(filter_one_seq(s[i], true) =~= seq![
        OutView::Event { event_type: keep_alive_name(), payload: payload_of(data) },
    ]);
}

/// Comment elision over a whole stream: a comment at any position leaves no
/// trace in the output, whichever way keep-alive visibility is configured.
pub proof fn lemma_comment_elision_in_stream(
    s: Seq<ItemView>,
    i: int,
    text: Seq<char>,
    keep_alive_friendly: bool,
)
    requires
        0 <= i < s.len(),
        s[i] == ItemView::Comment(text),
    ensures
        filter_seq(s, keep_alive_friendly) == filter_seq(s.take(i), keep_alive_friendly)
            + filter_seq(s.skip(i + 1), keep_alive_friendly),
{
    lemma_filter_seq_split(s, i, keep_alive_friendly);
    assert(filter_one_seq(s[i], keep_alive_friendly) =~= Seq::<OutView>::empty());
    assert(filter_seq(s.take(i), keep_alive_friendly) + Seq::<OutView>::empty() =~= filter_seq(
        s.take(i),
        keep_alive_friendly,
    ));
}

/// Error pass-through and continuation: a transport error anywhere in the
/// raw sequence appears unchanged in the output, between the filtered image
/// of what precedes it and the filtered image of what follows it — so the
/// elements after the error are still produced.
pub proof fn lemma_error_pass_through(
    s: Seq<ItemView>,
    i: int,
    detail: Seq<char>,
    keep_alive_friendly: bool,
)
    requires
        0 <= i < s.len(),
        s[i] == ItemView::Error(detail),
    ensures
        filter_seq(s, keep_alive_friendly) == filter_seq(s.take(i), keep_alive_friendly) + seq![
            OutView::Error(detail),
        ] + filter_seq(s.skip(i + 1), keep_alive_friendly),
{
    lemma_filter_seq_split(s, i, keep_alive_friendly);
    assert(filter_one_seq(s[i], keep_alive_friendly) =~= seq![OutView::Error(detail)]);
}

pub open spec fn items_view(items: Seq<Result<RawEvent, StreamError>>) -> Seq<ItemView> {
    items.map_values(|i: Result<RawEvent, StreamError>| item_view(i))
}

pub open spec fn outs_view(outs: Seq<Result<(String, Option<String>), StreamError>>) -> Seq<
    OutView,
> {
    outs.map_values(|o: Result<(String, Option<String>), StreamError>| out_view(o))
}

/// Pull-style consumption of a batch of raw stream elements: the output is
/// exactly the ordered filter/map of the input, with every transport error
/// kept in place and iteration continuing past it.
pub fn process_events(items: Vec<Result<RawEvent, StreamError>>, keep_alive_friendly: bool) -> (out:
    Vec<Result<(String, Option<String>), StreamError>>)
    ensures
        outs_view(out@) == filter_seq(items_view(items@), keep_alive_friendly),
{
    let mut rest = items;
    let ghost mut processed: Seq<ItemView> = Seq::empty();
    let ghost orig: Seq<ItemView> = items_view(rest@);
    let mut out: Vec<Result<(String, Option<String>), StreamError>> = Vec::new();
    while rest.len() > 0
        invariant
            orig == processed + items_view(rest@),
            outs_view(out@) == filter_seq(processed, keep_alive_friendly),
        decreases rest.len(),
    {
        let ghost prev_rest: Seq<Result<RawEvent, StreamError>> = rest@;
        let ghost prev_out: Seq<Result<(String, Option<String>), StreamError>> = out@;
        let item = rest.remove(0);
        proof {
            assert(items_view(rest@) =~= items_view(prev_rest).drop_first());
            assert(processed + items_view(prev_rest) =~= processed.push(item_view(item))
                + items_view(rest@));
            lemma_filter_seq_push(processed, item_view(item), keep_alive_friendly);
        }
        match normalize_event(item, keep_alive_friendly) {
            Some(o) => {
                out.push(o);
                proof {
                    assert(outs_view(out@) =~= outs_view(prev_out).push(out_view(o)));
                    assert(outs_view(out@) =~= filter_seq(
                        processed.push(item_view(item)),
                        keep_alive_friendly,
                    ));
                }
            },
            None => {},
        }
        proof {
            processed = processed.push(item_view(item));
        }
    }
    proof {
        assert(items_view(rest@) =~= Seq::<ItemView>::empty());
        assert(orig =~= processed);
    }
    out
}

/// Push-style consumption of a batch of raw stream elements: for every
/// element surviving the filter, in order, the event handler is invoked on a
/// normalized event and the error handler on a passed-through transport
/// error.  An error never ends the drain early: iteration goes on to the next
/// element.
pub fn listen<FE: Fn(String, Option<String>), FR: Fn(StreamError)>(
    items: Vec<Result<RawEvent, StreamError>>,
    stream_event: FE,
    stream_err: FR,
    keep_alive_friendly: bool,
)
    requires
        forall|args: (String, Option<String>)| call_requires(stream_event, args),
        forall|args: (StreamError,)| call_requires(stream_err, args),
{
    let mut rest = items;
    while rest.len() > 0
        invariant
            forall|args: (String, Option<String>)| call_requires(stream_event, args),
            forall|args: (StreamError,)| call_requires(stream_err, args),
        decreases rest.len(),
    {
        let item = rest.remove(0);
        match normalize_event(item, keep_alive_friendly) {
            Some(Ok((event_type, payload))) => stream_event(event_type, payload),
            Some(Err(e)) => stream_err(e),
            None => {},
        }
    }
}

} // verus!
