//! The flat interpreter: collections come as start and end events, and each `Push` opens a
//! nested frame that reads on from the same cursor until its `Pop`.
//!
//! A frame does not borrow the parser: each call of [`StackFrame::next`] is handed the parser.
//! Only the innermost open frame reads items; a call on an outer frame first skips the rest of
//! every frame opened inside it, up to the matching `Pop`; items that cannot be interpreted
//! are passed over there, and only a truncated item stops the skipping.
use vstd::prelude::*;
use core::ops::RangeInclusive;
pub use crate::field::Field;
use crate::item::{self, Collection, Item, denotes, item_payload, item_tag};
use crate::bytes::le_value;
use crate::item::{COLLECTION, END_COLLECTION, USAGE_MAX, USAGE_MIN};
use crate::state::{
    Effect, Scan, State, count_bounds, count_tag, drain, initial_state, is_main, items_from,
    lemma_collection_events, lemma_prefix_bounds, lemma_run_append, lemma_usage_pairing, without_locals, lemma_scan_bounds, lemma_scan_plain,
    lemma_scan_runs, plain_from, run, scan, scan_end, skip_scopes,
};

verus! {

/// A report descriptor and the cursor that all its frames share.
pub struct Parser<'a> {
    data: &'a [u8],
    pos: usize,
    /// Where each open frame started, outermost first.
    scopes: Vec<usize>,
}

/// A frame of global and local state; it yields the values of one scope of the descriptor.
#[derive(Debug)]
pub struct StackFrame {
    level: usize,
    origin: usize,
    state: State,
}

/// Why a value could not be produced.
#[derive(Clone, Copy, Debug, PartialEq, Eq)]
pub enum ParseError<'a> {
    /// An item is longer than the amount of bytes remaining in the buffer.
    Truncated,
    /// An item has an unexpected data value.
    UnexpectedData,
    /// An item that this interpreter does not handle.
    UnexpectedItem(Item<'a>),
}

/// A value read from a report descriptor.
#[derive(Debug)]
pub enum Value {
    /// The start of a collection of fields.
    Collection(Collection),
    /// The end of a collection of fields.
    EndCollection,
    /// A single input/output field.
    Field(Field),
    /// A usage of a field, or an inclusive range of them.
    ///
    /// Since a field may have an arbitrary amount of usages, they are returned separately,
    /// *before* their field.
    Usage { page: u16, ids: RangeInclusive<u16> },
    /// A frame with a copy of the state, returned for a `Push` item. Its `next` returns `None`
    /// after the matching `Pop` or at the end of the descriptor.
    StackFrame(StackFrame),
}

impl<'a> Parser<'a> {
    /// The descriptor.
    pub closed spec fn data(&self) -> Seq<u8> {
        self.data@
    }

    /// The shared cursor.
    pub closed spec fn pos(&self) -> nat {
        self.pos as nat
    }

    /// Where each open frame started, outermost first.
    pub closed spec fn scopes(&self) -> Seq<usize> {
        self.scopes@
    }

    /// The parser's invariant.
    pub open spec fn wf(&self) -> bool {
        &&& self.pos() <= self.data().len() < usize::MAX
        &&& self.scopes().len() <= self.pos() + 1
    }

    /// Starts reading the descriptor with a fresh frame, at the cursor. Frames opened before
    /// are skipped to their end first, and yield nothing after.
    pub fn iter(&mut self) -> (r: StackFrame)
        requires
            old(self).wf(),
        ensures
            final(self).wf(),
            final(self).data() == old(self).data(),
            final(self).pos() == drain(
                old(self).data(),
                old(self).pos(),
                old(self).scopes().len(),
                0,
                false,
                initial_state(),
            ).0,
            final(self).scopes() == seq![final(self).pos() as usize],
            r.level() == 0,
            r.origin() == final(self).pos(),
            r.state() == initial_state(),
    {
        let mut skipped = State::new();
        skip_scopes(self.data, &mut self.pos, self.scopes.len(), 0, false, &mut skipped);
        self.scopes.clear();
        self.scopes.push(self.pos);
        proof {
            assert(self.scopes@ =~= seq![self.pos]);
        }
        StackFrame::new(self.pos)
    }
}

/// Whether the frame at `level` that started at `origin` is still open.
pub open spec fn is_open(scopes: Seq<usize>, level: nat, origin: nat) -> bool {
    level < scopes.len() && scopes[level as int] == origin
}

/// The error for an item that could not be decoded.
pub open spec fn decode_failure<'a>(e: item::ParseError) -> ParseError<'a> {
    match e {
        item::ParseError::Truncated => ParseError::Truncated,
        item::ParseError::UnexpectedData => ParseError::UnexpectedData,
    }
}

/// Whether `r` is the value that a usage, field or collection-bound effect `e` gives.
pub open spec fn shows<'a>(e: Effect, r: Option<Result<Value, ParseError<'a>>>) -> bool {
    match e {
        Effect::Usage { page, min, max } => match r {
            Some(Ok(Value::Usage { page: pg, ids })) => pg == page && ids@.start == min
                && ids@.end == max && !ids@.exhausted,
            _ => false,
        },
        Effect::Field(f) => r == Some(Ok::<Value, ParseError<'a>>(Value::Field(f))),
        Effect::Open(k) => r == Some(Ok::<Value, ParseError<'a>>(Value::Collection(k))),
        Effect::Close => r == Some(Ok::<Value, ParseError<'a>>(Value::EndCollection)),
        _ => false,
    }
}

/// Whether `r` is the value for a non-`Skip` effect `e` of the item at `at`, which ends at
/// `next`, read by a frame at `level` whose state is then `s`. A `Push` hands out a frame one
/// level deeper that starts at `next` with a copy of `s`.
pub open spec fn yields<'a>(
    d: Seq<u8>,
    at: nat,
    next: nat,
    level: nat,
    s: State,
    e: Effect,
    r: Option<Result<Value, ParseError<'a>>>,
) -> bool {
    match e {
        Effect::Usage { .. } | Effect::Field(_) | Effect::Open(_) | Effect::Close => shows(e, r),
        Effect::Push => (r matches Some(Ok(Value::StackFrame(c))) && c.level() == level + 1
            && c.origin() == next && c.state() == s),
        Effect::Pop => r is None,
        _ => match r {
            Some(Err(ParseError::UnexpectedItem(item))) => denotes(
                item,
                item_tag(d.skip(at as int)),
                item_payload(d.skip(at as int)),
            ),
            _ => false,
        },
    }
}

/// Whether one call of `next` on frame `f` with parser `p` can leave them as `f2` and `p2` and
/// return `r`.
pub open spec fn next_step<'a>(p: Parser<'a>, f: StackFrame, p2: Parser<'a>, f2: StackFrame, r: Option<Result<Value, ParseError<'a>>>) -> bool {
    let d = p.data();
    let level = f.level() as nat;
    if !is_open(p.scopes(), level, f.origin() as nat) {
        r is None && p2 == p && f2 == f
    } else {
        let start = drain(d, p.pos(), p.scopes().len(), level + 1, false, f.state()).0;
        let (s, outcome) = scan(d, start, f.state());
        let kept = p.scopes().take(level + 1 as int);
        &&& p2.data() == d
        &&& p2.pos() == scan_end(d, start, f.state())
        &&& f2.level() == f.level() && f2.origin() == f.origin() && f2.state() == s
        &&& match outcome {
            Scan::End => r is None && p2.scopes() == kept,
            Scan::Failed { error, .. } => r == Some(Err::<Value, ParseError<'a>>(decode_failure(error)))
                && p2.scopes() == kept,
            Scan::Found { at, next, effect } => {
                &&& yields(d, at, next, level, s, effect, r)
                &&& p2.scopes() == if effect is Push {
                    kept.push(next as usize)
                } else if effect is Pop {
                    p.scopes().take(level as int)
                } else {
                    kept
                }
            },
        }
    }
}

impl StackFrame {
    /// How deep the frame is nested: 0 for the frame of `Parser::iter`.
    pub closed spec fn level(&self) -> nat {
        self.level as nat
    }

    /// Where the frame started.
    pub closed spec fn origin(&self) -> nat {
        self.origin as nat
    }

    /// The frame's global and local state.
    pub closed spec fn state(&self) -> State {
        self.state
    }

    /// A top-level frame starting at `origin`, with the initial state.
    fn new(origin: usize) -> (r: Self)
        ensures
            r.level() == 0,
            r.origin() == origin,
            r.state() == initial_state(),
    {
        StackFrame { level: 0, origin, state: State::new() }
    }

    /// A frame one level deeper, starting at `origin`, with a copy of this frame's state.
    fn duplicate(&self, origin: usize) -> (r: Self)
        requires
            self.level() < usize::MAX,
        ensures
            r.level() == self.level() + 1,
            r.origin() == origin,
            r.state() == self.state(),
    {
        StackFrame { level: self.level + 1, origin, state: self.state }
    }

    /// Reads the next value of this frame's scope. Returns `None` once the scope has ended:
    /// at its `Pop`, or at the end of the descriptor.
    pub fn next<'a>(&mut self, p: &mut Parser<'a>) -> (r: Option<Result<Value, ParseError<'a>>>)
        requires
            old(p).wf(),
        ensures
            final(p).wf(),
            next_step(*old(p), *old(self), *final(p), *final(self), r),
    {
        if !(self.level < p.scopes.len() && p.scopes[self.level] == self.origin) {
            return None;
        }
        let depth = skip_scopes(p.data, &mut p.pos, p.scopes.len(), self.level + 1, false, &mut self.state);
        p.scopes.truncate(depth);
        assert(p.scopes@ =~= old(p).scopes@.take(self.level + 1));
        let ghost start = p.pos as nat;
        proof {
            lemma_scan_bounds(p.data@, start, self.state);
        }
        match self.state.scan(p.data, &mut p.pos) {
            None => None,
            Some(Err(e)) => Some(Err(ParseError::from_item(e))),
            Some(Ok((item, effect))) => match effect {
                Effect::Usage { page, min, max } => Some(Ok(Value::Usage { page, ids: min..=max })),
                Effect::Field(f) => Some(Ok(Value::Field(f))),
                Effect::Open(k) => Some(Ok(Value::Collection(k))),
                Effect::Close => Some(Ok(Value::EndCollection)),
                Effect::Push => {
                    let origin = p.pos;
                    p.scopes.push(origin);
                    Some(Ok(Value::StackFrame(self.duplicate(origin))))
                },
                Effect::Pop => {
                    p.scopes.truncate(self.level);
                    assert(p.scopes@ =~= old(p).scopes@.take(self.level as int));
                    None
                },
                _ => Some(Err(ParseError::UnexpectedItem(item))),
            },
        }
    }
}

impl<'a> ParseError<'a> {
    /// The error for an item that could not be decoded.
    pub fn from_item(e: item::ParseError) -> (r: Self)
        ensures
            r == decode_failure::<'a>(e),
    {
        match e {
            item::ParseError::Truncated => ParseError::Truncated,
            item::ParseError::UnexpectedData => ParseError::UnexpectedData,
        }
    }
}

/// Whether `ps`, `fs` and `rs` record successive calls of `next` on one frame: call `i` turns
/// parser `ps[i]` and frame `fs[i]` into `ps[i + 1]` and `fs[i + 1]`, and returns `rs[i]`.
pub open spec fn is_trace<'a>(
    ps: Seq<Parser<'a>>,
    fs: Seq<StackFrame>,
    rs: Seq<Option<Result<Value, ParseError<'a>>>>,
) -> bool {
    &&& ps.len() == rs.len() + 1
    &&& fs.len() == rs.len() + 1
    &&& forall|i: int|
        0 <= i < rs.len() ==> next_step(ps[i], fs[i], ps[i + 1], fs[i + 1], #[trigger] rs[i])
}

/// Whether `f` is the innermost open frame of `p`.
pub open spec fn innermost(p: Parser, f: StackFrame) -> bool {
    is_open(p.scopes(), f.level(), f.origin()) && p.scopes().len() == f.level() + 1
}

/// The values, as effects, that a frame in state `s` reads from `pos` on.
pub open spec fn effects_from(d: Seq<u8>, pos: nat, s: State) -> Seq<Effect> {
    run(s, items_from(d, pos)).1
}

/// One call of `next` on the innermost frame, over handled items, returns the first of the
/// effects still to come, or `None` when there are none; the frame stays innermost.
pub proof fn lemma_frame_step<'a>(p: Parser<'a>, f: StackFrame, p2: Parser<'a>, f2: StackFrame, r: Option<Result<Value, ParseError<'a>>>)
    requires
        innermost(p, f),
        p.pos() <= p.data().len(),
        plain_from(p.data(), p.pos()),
        next_step(p, f, p2, f2, r),
    ensures
        innermost(p2, f2),
        p2.data() == p.data(),
        p2.pos() <= p.data().len(),
        plain_from(p.data(), p2.pos()),
        ({
            let es = effects_from(p.data(), p.pos(), f.state());
            if es.len() == 0 {
                r is None && effects_from(p.data(), p2.pos(), f2.state()).len() == 0
            } else {
                shows(es[0], r) && effects_from(p.data(), p2.pos(), f2.state()) == es.drop_first()
            }
        }),
{
    let d = p.data();
    let s = f.state();
    lemma_scan_bounds(d, p.pos(), s);
    lemma_scan_plain(d, p.pos(), s);
    lemma_scan_runs(d, p.pos(), s);
    assert(p.scopes().take(f.level() + 1 as int) =~= p.scopes());
    match scan(d, p.pos(), s).1 {
        Scan::Found { next, effect, .. } => {
            let rest = run(scan(d, p.pos(), s).0, items_from(d, next)).1;
            assert((seq![effect] + rest).drop_first() =~= rest);
        },
        _ => {
            assert(items_from(d, d.len()) =~= Seq::<(u8, Seq<u8>)>::empty());
        },
    }
}

/// Successive calls of `next` on the innermost frame, over handled items, return the effects
/// that running the items gives, in order, and `None` once they are used up.
pub proof fn lemma_frame_trace<'a>(ps: Seq<Parser<'a>>, fs: Seq<StackFrame>, rs: Seq<Option<Result<Value, ParseError<'a>>>>)
    requires
        is_trace(ps, fs, rs),
        innermost(ps[0], fs[0]),
        ps[0].pos() <= ps[0].data().len(),
        plain_from(ps[0].data(), ps[0].pos()),
    ensures
        ({
            let es = effects_from(ps[0].data(), ps[0].pos(), fs[0].state());
            forall|i: int|
                0 <= i < rs.len() ==> if i < es.len() {
                    shows(es[i], #[trigger] rs[i])
                } else {
                    rs[i] is None
                }
        }),
    decreases rs.len(),
{
    if rs.len() > 0 {
        assert(rs[0] == rs[0]);
        lemma_frame_step(ps[0], fs[0], ps[1], fs[1], rs[0]);
        let (ps2, fs2, rs2) = (ps.drop_first(), fs.drop_first(), rs.drop_first());
        assert forall|i: int| 0 <= i < rs2.len() implies next_step(
            ps2[i],
            fs2[i],
            ps2[i + 1],
            fs2[i + 1],
            #[trigger] rs2[i],
        ) by {
            assert(rs2[i] == rs[i + 1]);
        }
        lemma_frame_trace(ps2, fs2, rs2);
        let es = effects_from(ps[0].data(), ps[0].pos(), fs[0].state());
        assert forall|i: int| 0 <= i < rs.len() implies if i < es.len() {
            shows(es[i], #[trigger] rs[i])
        } else {
            rs[i] is None
        } by {
            if i > 0 {
                assert(rs[i] == rs2[i - 1]);
            }
        }
    }
}

/// How many of `rs` are collection starts (`close == false`) or collection ends
/// (`close == true`).
pub open spec fn count_results<'a>(rs: Seq<Option<Result<Value, ParseError<'a>>>>, close: bool) -> nat
    decreases rs.len(),
{
    if rs.len() == 0 {
        0
    } else {
        (if (close && rs[0] matches Some(Ok(Value::EndCollection))) || (!close && rs[0] matches Some(
            Ok(Value::Collection(_)),
        )) {
            1nat
        } else {
            0
        }) + count_results(rs.drop_first(), close)
    }
}

/// Results that show `es` in order and then only `None` hold as many collection bounds of
/// each kind as `es`.
proof fn lemma_count_results<'a>(es: Seq<Effect>, rs: Seq<Option<Result<Value, ParseError<'a>>>>)
    requires
        rs.len() >= es.len(),
        forall|i: int|
            0 <= i < rs.len() ==> if i < es.len() {
                shows(es[i], #[trigger] rs[i])
            } else {
                rs[i] is None
            },
    ensures
        count_results(rs, false) == count_bounds(es, false),
        count_results(rs, true) == count_bounds(es, true),
    decreases rs.len(),
{
    if rs.len() > 0 {
        let (es2, rs2) = if es.len() > 0 {
            (es.drop_first(), rs.drop_first())
        } else {
            (es, rs.drop_first())
        };
        assert forall|i: int| 0 <= i < rs2.len() implies if i < es2.len() {
            shows(es2[i], #[trigger] rs2[i])
        } else {
            rs2[i] is None
        } by {
            assert(rs2[i] == rs[i + 1]);
        }
        lemma_count_results(es2, rs2);
        assert(shows(es[0], rs[0]) || rs[0] is None);
    }
}

/// Calling `next` on the innermost frame until it returns `None`, over items that all decode
/// and are handled, with as many `Collection`s as `EndCollection`s: no call fails, and as many
/// collection starts as collection ends come out.
pub proof fn lemma_collection_balance_calls<'a>(
    ps: Seq<Parser<'a>>,
    fs: Seq<StackFrame>,
    rs: Seq<Option<Result<Value, ParseError<'a>>>>,
)
    requires
        is_trace(ps, fs, rs),
        innermost(ps[0], fs[0]),
        ps[0].pos() <= ps[0].data().len(),
        plain_from(ps[0].data(), ps[0].pos()),
        count_tag(items_from(ps[0].data(), ps[0].pos()), COLLECTION) == count_tag(
            items_from(ps[0].data(), ps[0].pos()),
            END_COLLECTION,
        ),
        rs.len() > 0,
        rs.last() is None,
    ensures
        forall|i: int| 0 <= i < rs.len() ==> !(#[trigger] rs[i] matches Some(Err(_))),
        count_results(rs, false) == count_results(rs, true),
{
    let d = ps[0].data();
    let s = fs[0].state();
    lemma_frame_trace(ps, fs, rs);
    let es = effects_from(d, ps[0].pos(), s);
    assert(rs.len() - 1 >= es.len()) by {
        if rs.len() - 1 < es.len() {
            assert(shows(es[rs.len() - 1], rs[rs.len() - 1]));
        }
    }
    lemma_count_results(es, rs);
    lemma_collection_events(s, items_from(d, ps[0].pos()));
    assert forall|i: int| 0 <= i < rs.len() implies !(#[trigger] rs[i] matches Some(Err(_))) by {
        if i < es.len() {
            assert(shows(es[i], rs[i]));
        }
    }
}

/// Calling `next` on the innermost frame over properly nested items, which all decode and are
/// handled: at no point have more collection ends come out than collection starts.
pub proof fn lemma_collection_nesting_calls<'a>(
    ps: Seq<Parser<'a>>,
    fs: Seq<StackFrame>,
    rs: Seq<Option<Result<Value, ParseError<'a>>>>,
)
    requires
        is_trace(ps, fs, rs),
        innermost(ps[0], fs[0]),
        ps[0].pos() <= ps[0].data().len(),
        plain_from(ps[0].data(), ps[0].pos()),
        forall|n: int|
            0 <= n <= items_from(ps[0].data(), ps[0].pos()).len() ==> count_tag(
                #[trigger] items_from(ps[0].data(), ps[0].pos()).take(n),
                COLLECTION,
            ) >= count_tag(items_from(ps[0].data(), ps[0].pos()).take(n), END_COLLECTION),
    ensures
        forall|m: int|
            0 <= m <= rs.len() ==> count_results(#[trigger] rs.take(m), false) >= count_results(
                rs.take(m),
                true,
            ),
{
    let d = ps[0].data();
    let s = fs[0].state();
    let items = items_from(d, ps[0].pos());
    lemma_frame_trace(ps, fs, rs);
    assert forall|n: int| 0 <= n <= items.len() implies count_tag(#[trigger] items.take(n), COLLECTION)
        + 0 >= count_tag(items.take(n), END_COLLECTION) by {}
    lemma_prefix_bounds(s, items, 0);
    let es = effects_from(d, ps[0].pos(), s);
    assert forall|m: int| 0 <= m <= rs.len() implies count_results(#[trigger] rs.take(m), false)
        >= count_results(rs.take(m), true) by {
        let m2 = if m < es.len() { m } else { es.len() as int };
        let (es2, rs2) = (es.take(m2), rs.take(m));
        assert forall|i: int| 0 <= i < rs2.len() implies if i < es2.len() {
            shows(es2[i], #[trigger] rs2[i])
        } else {
            rs2[i] is None
        } by {
            assert(rs2[i] == rs[i]);
        }
        lemma_count_results(es2, rs2);
        assert(count_bounds(es.take(m2), false) + 0 >= count_bounds(es.take(m2), true));
    }
}

/// Calling `next` on the innermost frame whose items are a `UsageMin(a)`, then items that are
/// neither main items nor usage bounds, then a `UsageMax(b)`, then anything handled, with no
/// bound pending: the values that the items between give come first, then exactly one usage
/// range from `a` to `b` on the page in effect at the `UsageMax`.
pub proof fn lemma_usage_pairing_calls<'a>(
    ps: Seq<Parser<'a>>,
    fs: Seq<StackFrame>,
    rs: Seq<Option<Result<Value, ParseError<'a>>>>,
    a: Seq<u8>,
    mid: Seq<(u8, Seq<u8>)>,
    b: Seq<u8>,
    tail: Seq<(u8, Seq<u8>)>,
)
    requires
        is_trace(ps, fs, rs),
        innermost(ps[0], fs[0]),
        ps[0].pos() <= ps[0].data().len(),
        plain_from(ps[0].data(), ps[0].pos()),
        items_from(ps[0].data(), ps[0].pos()) == seq![(USAGE_MIN, a)] + mid + seq![(USAGE_MAX, b)]
            + tail,
        fs[0].state().usage_min is None && fs[0].state().usage_max is None,
        forall|i: int|
            0 <= i < mid.len() ==> !is_main(#[trigger] mid[i].0) && mid[i].0 != USAGE_MIN
                && mid[i].0 != USAGE_MAX,
    ensures
        ({
            let pending = State { usage_min: Some(le_value(a) as u16), ..fs[0].state() };
            let (t, between) = run(pending, mid);
            &&& forall|i: int| 0 <= i < between.len() && i < rs.len() ==> shows(between[i], #[trigger] rs[i])
            &&& between.len() < rs.len() ==> (rs[between.len() as int] matches Some(Ok(Value::Usage { page, ids }))
                && page == t.usage_page && ids@.start == le_value(a) as u16 && ids@.end
                == le_value(b) as u16)
        }),
{
    let d = ps[0].data();
    let s = fs[0].state();
    let first = seq![(USAGE_MIN, a)] + mid + seq![(USAGE_MAX, b)];
    lemma_usage_pairing(s, a, mid, b);
    lemma_run_append(s, first, tail);
    lemma_frame_trace(ps, fs, rs);
    let pending = State { usage_min: Some(le_value(a) as u16), ..s };
    let (t, between) = run(pending, mid);
    let u = Effect::Usage { page: t.usage_page, min: le_value(a) as u16, max: le_value(b) as u16 };
    let es = effects_from(d, ps[0].pos(), s);
    assert(es == between.push(u) + run(without_locals(t), tail).1);
    assert forall|i: int| 0 <= i < between.len() && i < rs.len() implies shows(between[i], #[trigger] rs[i]) by {
        assert(es[i] == between[i]);
    }
    if between.len() < rs.len() {
        assert(es[between.len() as int] == u);
        assert(shows(u, rs[between.len() as int]));
    }
}

/// Calls on a frame deeper than `level` leave the descriptor and the frames up to `level` as
/// they were.
proof fn lemma_deeper_calls<'a>(
    ps: Seq<Parser<'a>>,
    fs: Seq<StackFrame>,
    rs: Seq<Option<Result<Value, ParseError<'a>>>>,
    level: nat,
    n: int,
)
    requires
        is_trace(ps, fs, rs),
        fs[0].level() > level,
        ps[0].scopes().len() > level,
        0 <= n <= rs.len(),
    ensures
        ps[n].data() == ps[0].data(),
        fs[n].level() == fs[0].level(),
        ps[n].scopes().len() > level,
        ps[n].scopes().take(level + 1 as int) == ps[0].scopes().take(level + 1 as int),
    decreases n,
{
    if n > 0 {
        lemma_deeper_calls(ps, fs, rs, level, n - 1);
        let (p, f, p2) = (ps[n - 1], fs[n - 1], ps[n]);
        assert(next_step(p, f, p2, fs[n], rs[n - 1]));
        if is_open(p.scopes(), f.level(), f.origin()) {
            assert(p2.scopes().take(level + 1 as int) =~= p.scopes().take(level + 1 as int));
        }
    }
}

/// A `Push` hands out a frame one level deeper that starts just past the `Push` with a copy
/// of the state. Whatever calls are then made on the new frame, the frame that read the `Push`
/// stays open and keeps its state: its next call skips what is left of the pushed scope (and
/// nothing once the new frame has read its `Pop`), then reads on with the state it had at the
/// `Push`, so that nothing set inside the scope reaches it.
pub proof fn lemma_push_isolation<'a>(
    p: Parser<'a>,
    f: StackFrame,
    p2: Parser<'a>,
    f2: StackFrame,
    child: StackFrame,
    ps: Seq<Parser<'a>>,
    cs: Seq<StackFrame>,
    rs: Seq<Option<Result<Value, ParseError<'a>>>>,
    q2: Parser<'a>,
    f3: StackFrame,
    r: Option<Result<Value, ParseError<'a>>>,
)
    requires
        is_open(p.scopes(), f.level(), f.origin()),
        next_step(p, f, p2, f2, Some(Ok(Value::StackFrame(child)))),
        is_trace(ps, cs, rs),
        ps[0] == p2,
        cs[0] == child,
        next_step(ps.last(), f2, q2, f3, r),
    ensures
        child.state() == f2.state(),
        child.level() == f.level() + 1,
        child.origin() == p2.pos(),
        is_open(ps.last().scopes(), f2.level(), f2.origin()),
        ({
            let q = ps.last();
            let d = q.data();
            let start = drain(d, q.pos(), q.scopes().len(), f2.level() + 1, false, f2.state()).0;
            let (s, outcome) = scan(d, start, child.state());
            &&& d == p.data()
            &&& q.scopes().len() == f2.level() + 1 ==> start == q.pos()
            &&& f3.state() == s
            &&& (outcome matches Scan::Found { effect: Effect::Usage { page, .. }, .. } ==> (r
                matches Some(Ok(Value::Usage { page: pg, .. })) && pg == page))
        }),
{
    let d = p.data();
    let level = f.level();
    let start = drain(d, p.pos(), p.scopes().len(), level + 1, false, f.state()).0;
    match scan(d, start, f.state()).1 {
        Scan::Found { effect, .. } => {
            if !(effect is Push) {
                assert(false);
            }
        },
        _ => {},
    }
    assert(p2.scopes()[level as int] == p.scopes()[level as int]);
    lemma_deeper_calls(ps, cs, rs, level, rs.len() as int);
    let q = ps.last();
    assert(q.scopes()[level as int] == q.scopes().take(level + 1 as int)[level as int]);
    assert(p2.scopes()[level as int] == p2.scopes().take(level + 1 as int)[level as int]);
}

/// A parser over the report descriptor `data`, with the cursor at its start.
pub fn parse(data: &[u8]) -> (r: Parser<'_>)
    requires
        data@.len() < usize::MAX,
    ensures
        r.wf(),
        r.data() == data@,
        r.pos() == 0,
        r.scopes().len() == 0,
{
    Parser { data, pos: 0, scopes: Vec::new() }
}

} // verus!
