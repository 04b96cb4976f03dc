//! The tree interpreter: each collection is a nested cursor whose end is the collection's end.
//!
//! The global and local state is one for the whole descriptor. `Push` and `Pop` are not
//! supported here: they are reported as unexpected items. A cursor does not borrow the parser:
//! each call of `next` is handed the parser, and a call on an outer cursor first skips the rest
//! of every collection opened inside it, up to the matching `EndCollection`. Skipped items that
//! cannot be interpreted are passed over; the others still act on the shared state.
use vstd::prelude::*;
use core::ops::RangeInclusive;
pub use crate::field::Field;
use crate::flat::{ParseError, decode_failure};
use crate::item::{self, denotes, item_payload, item_tag};
use crate::bytes::le_value;
use crate::item::{USAGE_MAX, USAGE_MIN};
use crate::state::{
    Effect, Scan, State, drain, handled, initial_state, is_main, items_from, lemma_between_usages,
    lemma_plain_items, lemma_run_append, lemma_scan_bounds, lemma_scan_plain, lemma_scan_runs,
    lemma_usage_pairing, plain_from, run, scan, scan_end, skip_scopes, without_locals,
};

verus! {

/// A report descriptor, its cursor, and the state accumulated so far.
pub struct Parser<'a> {
    data: &'a [u8],
    index: usize,
    state: State,
    /// Where each open collection started, outermost first.
    scopes: Vec<usize>,
}

/// A cursor over one level of the descriptor: level 0 is the top, level `n` the inside of a
/// collection nested `n` deep.
#[derive(Debug)]
pub struct Tree {
    level: usize,
    origin: usize,
}

/// A collection of fields: the values inside it, and its kind.
#[derive(Debug)]
pub struct Collection {
    /// The cursor over the inside of the collection.
    pub inner: Tree,
    pub ty: item::Collection,
}

/// A value read from a report descriptor.
#[derive(Debug)]
pub enum Value {
    /// A collection of fields.
    Collection(Collection),
    /// A single input/output field.
    Field(Field),
    /// A usage of a field, or an inclusive range of them.
    ///
    /// Since a field may have an arbitrary amount of usages, they are returned separately,
    /// *before* their field.
    Usage { page: u16, ids: RangeInclusive<u16> },
}

impl<'a> Parser<'a> {
    /// The descriptor.
    pub closed spec fn data(&self) -> Seq<u8> {
        self.data@
    }

    /// The cursor.
    pub closed spec fn pos(&self) -> nat {
        self.index as nat
    }

    /// The global and local state.
    pub closed spec fn state(&self) -> State {
        self.state
    }

    /// Where each open collection started, outermost first.
    pub closed spec fn scopes(&self) -> Seq<usize> {
        self.scopes@
    }

    /// The parser's invariant.
    pub open spec fn wf(&self) -> bool {
        &&& self.pos() <= self.data().len() < usize::MAX
        &&& self.scopes().len() <= self.pos() + 1
    }

    /// A cursor over the top level of the descriptor.
    pub fn iter(&mut self) -> (r: Tree)
        ensures
            *final(self) == *old(self),
            r.level() == 0,
    {
        Tree { level: 0, origin: 0 }
    }
}

/// Whether the cursor at `level` that started at `origin` is still open.
pub open spec fn is_open(scopes: Seq<usize>, level: nat, origin: nat) -> bool {
    level == 0 || (level <= scopes.len() && scopes[level - 1] == origin)
}

/// Whether `r` is the value that a usage or field effect `e` gives.
pub open spec fn shows<'a>(e: Effect, r: Option<Result<Value, ParseError<'a>>>) -> bool {
    match e {
        Effect::Usage { page, min, max } => match r {
            Some(Ok(Value::Usage { page: pg, ids })) => pg == page && ids@.start == min
                && ids@.end == max && !ids@.exhausted,
            _ => false,
        },
        Effect::Field(f) => r == Some(Ok::<Value, ParseError<'a>>(Value::Field(f))),
        _ => false,
    }
}

/// Whether `r` is the value for a non-`Skip` effect `e` of the item at `at`, which ends at
/// `next`, read by a cursor at `level`. A collection gets a cursor one level deeper that starts
/// at `next`.
pub open spec fn yields<'a>(
    d: Seq<u8>,
    at: nat,
    next: nat,
    level: nat,
    e: Effect,
    r: Option<Result<Value, ParseError<'a>>>,
) -> bool {
    match e {
        Effect::Usage { .. } | Effect::Field(_) => shows(e, r),
        Effect::Open(k) => (r matches Some(Ok(Value::Collection(c))) && c.ty == k
            && c.inner.level() == level + 1 && c.inner.origin() == next),
        Effect::Close => r is None,
        _ => match r {
            Some(Err(ParseError::UnexpectedItem(item))) => denotes(
                item,
                item_tag(d.skip(at as int)),
                item_payload(d.skip(at as int)),
            ),
            _ => false,
        },
    }
}

/// Whether one call of `next` on cursor `t` with parser `p` can leave them as `t2` and `p2` and
/// return `r`.
pub open spec fn next_step<'a>(p: Parser<'a>, t: Tree, p2: Parser<'a>, t2: Tree, r: Option<Result<Value, ParseError<'a>>>) -> bool {
    let d = p.data();
    let level = t.level();
    if !is_open(p.scopes(), level, t.origin()) {
        r is None && p2 == p && t2 == t
    } else {
        let (start, _, entry) = drain(d, p.pos(), p.scopes().len(), level, true, p.state());
        let (s, outcome) = scan(d, start, entry);
        let kept = p.scopes().take(level as int);
        &&& p2.data() == d
        &&& p2.pos() == scan_end(d, start, entry)
        &&& p2.state() == s
        &&& t2 == t
        &&& match outcome {
            Scan::End => r is None && p2.scopes() == kept,
            Scan::Failed { error, .. } => r == Some(Err::<Value, ParseError<'a>>(decode_failure(error)))
                && p2.scopes() == kept,
            Scan::Found { at, next, effect } => {
                &&& yields(d, at, next, level, effect, r)
                &&& p2.scopes() == if effect is Open {
                    kept.push(next as usize)
                } else if effect is Close && level > 0 {
                    p.scopes().take(level - 1)
                } else {
                    kept
                }
            },
        }
    }
}

impl Tree {
    /// How deep the cursor is nested: 0 for the top level.
    pub closed spec fn level(&self) -> nat {
        self.level as nat
    }

    /// Where the cursor's collection started.
    pub closed spec fn origin(&self) -> nat {
        self.origin as nat
    }

    /// Reads the next value at this cursor's level. Returns `None` once the level has ended:
    /// at an `EndCollection`, or at the end of the descriptor.
    pub fn next<'a>(&mut self, p: &mut Parser<'a>) -> (r: Option<Result<Value, ParseError<'a>>>)
        requires
            old(p).wf(),
        ensures
            final(p).wf(),
            next_step(*old(p), *old(self), *final(p), *final(self), r),
    {
        if !(self.level == 0 || (self.level <= p.scopes.len() && p.scopes[self.level - 1] == self.origin)) {
            return None;
        }
        let depth = skip_scopes(p.data, &mut p.index, p.scopes.len(), self.level, true, &mut p.state);
        p.scopes.truncate(depth);
        assert(p.scopes@ =~= old(p).scopes@.take(self.level as int));
        let ghost start = p.index as nat;
        proof {
            lemma_scan_bounds(p.data@, start, p.state);
        }
        match p.state.scan(p.data, &mut p.index) {
            None => None,
            Some(Err(e)) => Some(Err(ParseError::from_item(e))),
            Some(Ok((item, effect))) => match effect {
                Effect::Usage { page, min, max } => Some(Ok(Value::Usage { page, ids: min..=max })),
                Effect::Field(f) => Some(Ok(Value::Field(f))),
                Effect::Open(ty) => {
                    let origin = p.index;
                    p.scopes.push(origin);
                    let inner = Tree { level: self.level + 1, origin };
                    Some(Ok(Value::Collection(Collection { inner, ty })))
                },
                Effect::Close => {
                    if self.level > 0 {
                        p.scopes.truncate(self.level - 1);
                        assert(p.scopes@ =~= old(p).scopes@.take(self.level - 1));
                    }
                    None
                },
                _ => Some(Err(ParseError::UnexpectedItem(item))),
            },
        }
    }
}

impl Collection {
    /// Reads the next value inside the collection. Returns `None` once the collection has
    /// ended.
    pub fn next<'a>(&mut self, p: &mut Parser<'a>) -> (r: Option<Result<Value, ParseError<'a>>>)
        requires
            old(p).wf(),
        ensures
            final(p).wf(),
            final(self).ty == old(self).ty,
            next_step(*old(p), old(self).inner, *final(p), final(self).inner, r),
    {
        self.inner.next(p)
    }
}

/// Once the cursor of a collection has run out, it yields nothing more: calling `next` on it
/// again returns `None` and moves neither the parser's cursor nor its state.
pub proof fn lemma_drained_collection<'a>(
    p: Parser<'a>,
    t: Tree,
    p2: Parser<'a>,
    t2: Tree,
    p3: Parser<'a>,
    t3: Tree,
    r3: Option<Result<Value, ParseError<'a>>>,
)
    requires
        p.wf(),
        t.level() > 0,
        next_step(p, t, p2, t2, None),
        next_step(p2, t2, p3, t3, r3),
    ensures
        r3 is None,
        p3.pos() == p2.pos(),
        p3.state() == p2.state(),
{
    let d = p.data();
    if is_open(p.scopes(), t.level(), t.origin()) {
        let (start, _, entry) = drain(d, p.pos(), p.scopes().len(), t.level(), true, p.state());
        crate::state::lemma_drain_bounds(d, p.pos(), p.scopes().len(), t.level(), true, p.state());
        match scan(d, start, entry).1 {
            Scan::End => {
                assert(p2.pos() == d.len());
                assert(p2.scopes() =~= p.scopes().take(t.level() as int));
                let start2 = drain(d, p2.pos(), p2.scopes().len(), t2.level(), true, p2.state()).0;
                assert(start2 == d.len());
            },
            _ => {},
        }
    }
}

/// Whether `ps`, `ts` and `rs` record successive calls of `next` on one cursor: call `i` turns
/// parser `ps[i]` and cursor `ts[i]` into `ps[i + 1]` and `ts[i + 1]`, and returns `rs[i]`.
pub open spec fn is_trace<'a>(
    ps: Seq<Parser<'a>>,
    ts: Seq<Tree>,
    rs: Seq<Option<Result<Value, ParseError<'a>>>>,
) -> bool {
    &&& ps.len() == rs.len() + 1
    &&& ts.len() == rs.len() + 1
    &&& forall|i: int|
        0 <= i < rs.len() ==> next_step(ps[i], ts[i], ps[i + 1], ts[i + 1], #[trigger] rs[i])
}

/// Whether `t` is the innermost open cursor of `p`.
pub open spec fn innermost(p: Parser, t: Tree) -> bool {
    is_open(p.scopes(), t.level(), t.origin()) && p.scopes().len() == t.level()
}

/// The effects that reading from `p`'s cursor on gives.
pub open spec fn effects_of(p: Parser) -> Seq<Effect> {
    run(p.state(), items_from(p.data(), p.pos())).1
}

/// Whether the first `n` effects of `es` are all usages or fields.
pub open spec fn plain_prefix(es: Seq<Effect>, n: int) -> bool {
    forall|j: int| 0 <= j < n && j < es.len() ==> #[trigger] es[j] is Usage || es[j] is Field
}

/// One call of `next` on the innermost cursor, over handled items, returns the first usage or
/// field still to come, or `None` when no effect is left; the cursor stays innermost.
pub proof fn lemma_cursor_step<'a>(p: Parser<'a>, t: Tree, p2: Parser<'a>, t2: Tree, r: Option<Result<Value, ParseError<'a>>>)
    requires
        innermost(p, t),
        p.pos() <= p.data().len(),
        plain_from(p.data(), p.pos()),
        next_step(p, t, p2, t2, r),
    ensures
        ({
            let es = effects_of(p);
            &&& es.len() == 0 ==> r is None && effects_of(p2).len() == 0
            &&& es.len() > 0 && (es[0] is Usage || es[0] is Field) ==> shows(es[0], r)
                && effects_of(p2) == es.drop_first()
            &&& (es.len() == 0 || es[0] is Usage || es[0] is Field) ==> innermost(p2, t2)
                && p2.data() == p.data() && p2.pos() <= p.data().len() && plain_from(
                p.data(),
                p2.pos(),
            )
        }),
{
    let d = p.data();
    let s = p.state();
    lemma_scan_bounds(d, p.pos(), s);
    lemma_scan_plain(d, p.pos(), s);
    lemma_scan_runs(d, p.pos(), s);
    assert(p.scopes().take(t.level() as int) =~= p.scopes());
    match scan(d, p.pos(), s).1 {
        Scan::Found { next, effect, .. } => {
            let rest = run(scan(d, p.pos(), s).0, items_from(d, next)).1;
            assert((seq![effect] + rest).drop_first() =~= rest);
        },
        _ => {
            assert(items_from(d, d.len()) =~= Seq::<(u8, Seq<u8>)>::empty());
        },
    }
}

/// Successive calls of `next` on the innermost cursor, over handled items, return the usages
/// and fields that running the items gives, in order, for as long as nothing else comes; and
/// `None` once the effects are used up.
pub proof fn lemma_cursor_trace<'a>(ps: Seq<Parser<'a>>, ts: Seq<Tree>, rs: Seq<Option<Result<Value, ParseError<'a>>>>)
    requires
        is_trace(ps, ts, rs),
        innermost(ps[0], ts[0]),
        ps[0].pos() <= ps[0].data().len(),
        plain_from(ps[0].data(), ps[0].pos()),
    ensures
        ({
            let es = effects_of(ps[0]);
            forall|i: int|
                0 <= i < rs.len() && plain_prefix(es, i) ==> if i < es.len() {
                    (es[i] is Usage || es[i] is Field) ==> shows(es[i], #[trigger] rs[i])
                } else {
                    rs[i] is None
                }
        }),
    decreases rs.len(),
{
    if rs.len() > 0 {
        assert(rs[0] == rs[0]);
        lemma_cursor_step(ps[0], ts[0], ps[1], ts[1], rs[0]);
        let es = effects_of(ps[0]);
        let (ps2, ts2, rs2) = (ps.drop_first(), ts.drop_first(), rs.drop_first());
        if es.len() == 0 || es[0] is Usage || es[0] is Field {
            assert forall|i: int| 0 <= i < rs2.len() implies next_step(
                ps2[i],
                ts2[i],
                ps2[i + 1],
                ts2[i + 1],
                #[trigger] rs2[i],
            ) by {
                assert(rs2[i] == rs[i + 1]);
            }
            lemma_cursor_trace(ps2, ts2, rs2);
            let es2 = effects_of(ps2[0]);
            assert forall|i: int| 0 <= i < rs.len() && plain_prefix(es, i) implies if i
                < es.len() {
                (es[i] is Usage || es[i] is Field) ==> shows(es[i], #[trigger] rs[i])
            } else {
                rs[i] is None
            } by {
                if i > 0 {
                    assert(rs[i] == rs2[i - 1]);
                    if es.len() > 0 {
                        assert(es2 == es.drop_first());
                        assert forall|j: int| 0 <= j < i - 1 && j < es2.len() implies #[trigger] es2[j] is Usage
                            || es2[j] is Field by {
                            assert(es2[j] == es[j + 1]);
                        }
                        assert(plain_prefix(es2, i - 1));
                    } else {
                        assert(plain_prefix(es2, i - 1));
                    }
                }
            }
        }
    }
}

/// Calling `next` on the innermost cursor whose items are a `UsageMin(a)`, then items that
/// are neither main items nor usage bounds, then a `UsageMax(b)`, then anything handled, with
/// no bound pending: the single usages that the items between give come first, then exactly
/// one usage range from `a` to `b` on the page in effect at the `UsageMax`.
pub proof fn lemma_usage_pairing_calls<'a>(
    ps: Seq<Parser<'a>>,
    ts: Seq<Tree>,
    rs: Seq<Option<Result<Value, ParseError<'a>>>>,
    a: Seq<u8>,
    mid: Seq<(u8, Seq<u8>)>,
    b: Seq<u8>,
    tail: Seq<(u8, Seq<u8>)>,
)
    requires
        is_trace(ps, ts, rs),
        innermost(ps[0], ts[0]),
        ps[0].pos() <= ps[0].data().len(),
        plain_from(ps[0].data(), ps[0].pos()),
        items_from(ps[0].data(), ps[0].pos()) == seq![(USAGE_MIN, a)] + mid + seq![(USAGE_MAX, b)]
            + tail,
        ps[0].state().usage_min is None && ps[0].state().usage_max is None,
        forall|i: int|
            0 <= i < mid.len() ==> !is_main(#[trigger] mid[i].0) && mid[i].0 != USAGE_MIN
                && mid[i].0 != USAGE_MAX,
    ensures
        ({
            let pending = State { usage_min: Some(le_value(a) as u16), ..ps[0].state() };
            let (t, between) = run(pending, mid);
            &&& forall|i: int| 0 <= i < between.len() && i < rs.len() ==> shows(between[i], #[trigger] rs[i])
            &&& between.len() < rs.len() ==> (rs[between.len() as int] matches Some(Ok(Value::Usage { page, ids }))
                && page == t.usage_page && ids@.start == le_value(a) as u16 && ids@.end
                == le_value(b) as u16)
        }),
{
    let d = ps[0].data();
    let s = ps[0].state();
    let items = items_from(d, ps[0].pos());
    let first = seq![(USAGE_MIN, a)] + mid + seq![(USAGE_MAX, b)];
    lemma_usage_pairing(s, a, mid, b);
    lemma_run_append(s, first, tail);
    lemma_cursor_trace(ps, ts, rs);
    lemma_plain_items(d, ps[0].pos());
    let pending = State { usage_min: Some(le_value(a) as u16), ..s };
    assert forall|i: int| 0 <= i < mid.len() implies handled(#[trigger] mid[i].0, mid[i].1)
        && !is_main(mid[i].0) && mid[i].0 != USAGE_MIN && mid[i].0 != USAGE_MAX by {
        assert(mid[i] == items[i + 1]);
    }
    lemma_between_usages(pending, mid);
    let (t, between) = run(pending, mid);
    let u = Effect::Usage { page: t.usage_page, min: le_value(a) as u16, max: le_value(b) as u16 };
    let es = effects_of(ps[0]);
    assert(es == between.push(u) + run(without_locals(t), tail).1);
    assert forall|i: int| 0 <= i < between.len() && i < rs.len() implies shows(between[i], #[trigger] rs[i]) by {
        assert(es[i] == between[i]);
        assert forall|j: int| 0 <= j < i && j < es.len() implies #[trigger] es[j] is Usage || es[j] is Field by {
            assert(es[j] == between[j]);
        }
        assert(plain_prefix(es, i));
    }
    if between.len() < rs.len() {
        let k = between.len() as int;
        assert(es[k] == u);
        assert forall|j: int| 0 <= j < k && j < es.len() implies #[trigger] es[j] is Usage || es[j] is Field by {
            assert(es[j] == between[j]);
        }
        assert(plain_prefix(es, k));
        assert(shows(u, rs[k]));
    }
}

/// A parser over the report descriptor `data`, with the cursor at its start and the initial
/// state.
pub fn parse(data: &[u8]) -> (r: Parser<'_>)
    requires
        data@.len() < usize::MAX,
    ensures
        r.wf(),
        r.data() == data@,
        r.pos() == 0,
        r.state() == initial_state(),
        r.scopes().len() == 0,
{
    Parser { data, index: 0, state: State::new(), scopes: Vec::new() }
}

} // verus!
