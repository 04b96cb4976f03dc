//! Parser state and the transition that each item makes on it; shared by the flat and the
//! tree interpreters.
use vstd::prelude::*;
use vstd::slice::slice_subrange;
use crate::bytes::{le_value, signed_value};
use crate::field::Field;
use crate::item::{
    Collection, Item, MainFlags, ParseError, collection_kind, decode_error, denotes, is_truncated,
    item_len, item_payload, item_tag, payload_fits, split, COLLECTION, END_COLLECTION, FEATURE,
    INPUT, LOGI_MAX, LOGI_MIN, OUTPUT, PHYS_MAX, PHYS_MIN, POP, PUSH, REPORT_COUNT, REPORT_ID,
    REPORT_SIZE, UNIT, UNIT_EXP, USAGE, USAGE_MAX, USAGE_MIN, USAGE_PAGE,
};

verus! {

/// Global and local state accumulated while walking a report descriptor.
#[derive(Clone, Copy, Debug, PartialEq, Eq, Structural)]
pub struct State {
    pub usage_page: u16,
    pub logical_min: i32,
    pub logical_max: i32,
    pub physical_min: i32,
    pub physical_max: i32,
    pub report_count: u32,
    pub report_size: u32,
    /// A `UsageMin` that waits for its `UsageMax`.
    pub usage_min: Option<u16>,
    /// A `UsageMax` that waits for its `UsageMin`.
    pub usage_max: Option<u16>,
}

/// The state at the start of a descriptor.
pub open spec fn initial_state() -> State {
    State {
        usage_page: 0,
        logical_min: 0,
        logical_max: 0,
        physical_min: 0,
        physical_max: 0,
        report_count: 0,
        report_size: 0,
        usage_min: None,
        usage_max: None,
    }
}

impl State {
    /// The state at the start of a descriptor.
    pub fn new() -> (r: State)
        ensures
            r == initial_state(),
    {
        State {
            usage_page: 0,
            logical_min: 0,
            logical_max: 0,
            physical_min: 0,
            physical_max: 0,
            report_count: 0,
            report_size: 0,
            usage_min: None,
            usage_max: None,
        }
    }
}

/// What an item does besides changing the state.
#[derive(Clone, Copy, Debug, PartialEq, Eq, Structural)]
pub enum Effect {
    /// Nothing: the walk goes on with the next item.
    Skip,
    /// A usage, or an inclusive range of usages, on a usage page.
    Usage { page: u16, min: u16, max: u16 },
    /// An input or output field.
    Field(Field),
    /// The start of a collection.
    Open(Collection),
    /// The end of a collection.
    Close,
    /// A `Push` item.
    Push,
    /// A `Pop` item.
    Pop,
    /// An item that the interpreters do not handle.
    Unexpected,
}

/// The field that an `Input` (or `Output`) item with `flags` declares in state `s`. Where the
/// physical range is zero on both ends it is taken to be the logical range.
pub open spec fn field_in(s: State, is_input: bool, flags: MainFlags) -> Field {
    let unset = s.physical_min == 0 && s.physical_max == 0;
    Field {
        is_input,
        flags,
        logical_min: s.logical_min,
        logical_max: s.logical_max,
        physical_min: if unset {
            s.logical_min
        } else {
            s.physical_min
        },
        physical_max: if unset {
            s.logical_max
        } else {
            s.physical_max
        },
        report_count: s.report_count,
        report_size: s.report_size,
    }
}

/// `s` with no pending usage bound.
pub open spec fn without_locals(s: State) -> State {
    State { usage_min: None, usage_max: None, ..s }
}

/// The state after an item with tag `tag` and payload `p`, and what else the item does.
pub open spec fn effect(s: State, tag: u8, p: Seq<u8>) -> (State, Effect) {
    let u = le_value(p);
    let n = signed_value(p) as i32;
    if tag == USAGE_PAGE {
        (State { usage_page: u as u16, ..s }, Effect::Skip)
    } else if tag == LOGI_MIN {
        (State { logical_min: n, ..s }, Effect::Skip)
    } else if tag == LOGI_MAX {
        (State { logical_max: n, ..s }, Effect::Skip)
    } else if tag == PHYS_MIN {
        (State { physical_min: n, ..s }, Effect::Skip)
    } else if tag == PHYS_MAX {
        (State { physical_max: n, ..s }, Effect::Skip)
    } else if tag == REPORT_COUNT {
        (State { report_count: u as u32, ..s }, Effect::Skip)
    } else if tag == REPORT_SIZE {
        (State { report_size: u as u32, ..s }, Effect::Skip)
    } else if tag == REPORT_ID || tag == UNIT || tag == UNIT_EXP {
        (s, Effect::Skip)
    } else if tag == USAGE && p.len() <= 2 {
        (s, Effect::Usage { page: s.usage_page, min: u as u16, max: u as u16 })
    } else if tag == USAGE_MIN {
        match s.usage_max {
            Some(max) => (
                without_locals(s),
                Effect::Usage { page: s.usage_page, min: u as u16, max },
            ),
            None => (State { usage_min: Some(u as u16), ..s }, Effect::Skip),
        }
    } else if tag == USAGE_MAX {
        match s.usage_min {
            Some(min) => (
                without_locals(s),
                Effect::Usage { page: s.usage_page, min, max: u as u16 },
            ),
            None => (State { usage_max: Some(u as u16), ..s }, Effect::Skip),
        }
    } else if tag == INPUT || tag == OUTPUT {
        (without_locals(s), Effect::Field(field_in(s, tag == INPUT, MainFlags(u as u32))))
    } else if tag == COLLECTION {
        (without_locals(s), Effect::Open(collection_kind(u as u8)))
    } else if tag == END_COLLECTION {
        (without_locals(s), Effect::Close)
    } else if tag == PUSH {
        (s, Effect::Push)
    } else if tag == POP {
        (s, Effect::Pop)
    } else {
        (s, Effect::Unexpected)
    }
}

/// Applies the items `items`, each a tag and a payload, in order from state `s`: gives the
/// state after them and the effects other than `Skip`, in order.
pub open spec fn run(s: State, items: Seq<(u8, Seq<u8>)>) -> (State, Seq<Effect>)
    decreases items.len(),
{
    if items.len() == 0 {
        (s, Seq::empty())
    } else {
        let (t, e) = effect(s, items[0].0, items[0].1);
        let (u, es) = run(t, items.drop_first());
        (u, if e is Skip {
            es
        } else {
            seq![e] + es
        })
    }
}

/// Main items: `Input`, `Output`, `Feature`, `Collection` and `EndCollection`.
pub open spec fn is_main(tag: u8) -> bool {
    tag == INPUT || tag == OUTPUT || tag == FEATURE || tag == COLLECTION || tag == END_COLLECTION
}

/// Running two lists of items one after the other is running their concatenation.
pub proof fn lemma_run_append(s: State, x: Seq<(u8, Seq<u8>)>, y: Seq<(u8, Seq<u8>)>)
    ensures
        run(s, x + y) == (run(run(s, x).0, y).0, run(s, x).1 + run(run(s, x).0, y).1),
    decreases x.len(),
{
    if x.len() == 0 {
        assert(x + y =~= y);
        assert(run(s, x).1 + run(s, y).1 =~= run(s, y).1);
    } else {
        let (t, e) = effect(s, x[0].0, x[0].1);
        lemma_run_append(t, x.drop_first(), y);
        assert((x + y).drop_first() =~= x.drop_first() + y);
        let es1 = run(t, x.drop_first()).1;
        let es2 = run(run(t, x.drop_first()).0, y).1;
        assert(seq![e] + (es1 + es2) =~= (seq![e] + es1) + es2);
    }
}

/// Items that are neither main items nor usage bounds leave pending usage bounds alone.
pub proof fn lemma_run_keeps_bounds(s: State, items: Seq<(u8, Seq<u8>)>)
    requires
        forall|i: int|
            0 <= i < items.len() ==> !is_main(#[trigger] items[i].0) && items[i].0 != USAGE_MIN
                && items[i].0 != USAGE_MAX,
    ensures
        run(s, items).0.usage_min == s.usage_min,
        run(s, items).0.usage_max == s.usage_max,
    decreases items.len(),
{
    if items.len() > 0 {
        let t = effect(s, items[0].0, items[0].1).0;
        let rest = items.drop_first();
        assert forall|i: int| 0 <= i < rest.len() implies !is_main(#[trigger] rest[i].0)
            && rest[i].0 != USAGE_MIN && rest[i].0 != USAGE_MAX by {
            assert(rest[i] == items[i + 1]);
        }
        lemma_run_keeps_bounds(t, rest);
    }
}

/// A field declared while the physical range is zero on both ends reports the logical range as
/// its physical range.
pub proof fn lemma_physical_default(s: State, tag: u8, p: Seq<u8>)
    requires
        tag == INPUT || tag == OUTPUT,
        s.physical_min == 0 && s.physical_max == 0,
    ensures
        effect(s, tag, p).1 matches Effect::Field(f) && f.physical_min == s.logical_min
            && f.physical_max == s.logical_max,
{
}

/// A `UsageMin` followed, past items that are neither main items nor usage bounds, by a
/// `UsageMax` gives exactly one usage range, from the first bound to the second, on the usage
/// page in effect at the `UsageMax`; it comes after what the items between give, and leaves
/// no bound pending.
pub proof fn lemma_usage_pairing(s: State, a: Seq<u8>, mid: Seq<(u8, Seq<u8>)>, b: Seq<u8>)
    requires
        s.usage_min is None && s.usage_max is None,
        forall|i: int|
            0 <= i < mid.len() ==> !is_main(#[trigger] mid[i].0) && mid[i].0 != USAGE_MIN
                && mid[i].0 != USAGE_MAX,
    ensures
        ({
            let pending = State { usage_min: Some(le_value(a) as u16), ..s };
            let (t, between) = run(pending, mid);
            run(s, seq![(USAGE_MIN, a)] + mid + seq![(USAGE_MAX, b)]) == (
                without_locals(t),
                between.push(
                    Effect::Usage {
                        page: t.usage_page,
                        min: le_value(a) as u16,
                        max: le_value(b) as u16,
                    },
                ),
            )
        }),
{
    let pending = State { usage_min: Some(le_value(a) as u16), ..s };
    let first = seq![(USAGE_MIN, a)];
    let last = seq![(USAGE_MAX, b)];
    lemma_run_keeps_bounds(pending, mid);
    lemma_run_append(s, first + mid, last);
    lemma_run_append(s, first, mid);
    reveal_with_fuel(run, 2);
    assert(first.drop_first() =~= Seq::<(u8, Seq<u8>)>::empty());
    assert(last.drop_first() =~= Seq::<(u8, Seq<u8>)>::empty());
    let (t, between) = run(pending, mid);
    assert(run(s, first) == (pending, Seq::<Effect>::empty()));
    assert(Seq::<Effect>::empty() + between =~= between);
    let u = Effect::Usage { page: t.usage_page, min: le_value(a) as u16, max: le_value(b) as u16 };
    assert(run(t, last) == (without_locals(t), seq![u]));
    assert(between + seq![u] =~= between.push(u));
}

/// A single `Usage` gives its usage at once, on the current page, and leaves the state, pending
/// usage bounds included, as it was.
pub proof fn lemma_single_usage(s: State, p: Seq<u8>)
    requires
        p.len() <= 2,
    ensures
        effect(s, USAGE, p) == (
            s,
            Effect::Usage { page: s.usage_page, min: le_value(p) as u16, max: le_value(p) as u16 },
        ),
{
}

/// How many items of `items` have tag `tag`.
pub open spec fn count_tag(items: Seq<(u8, Seq<u8>)>, tag: u8) -> nat
    decreases items.len(),
{
    if items.len() == 0 {
        0
    } else {
        (if items[0].0 == tag {
            1nat
        } else {
            0
        }) + count_tag(items.drop_first(), tag)
    }
}

/// How many effects of `es` start a collection (`close == false`) or end one (`close == true`).
pub open spec fn count_bounds(es: Seq<Effect>, close: bool) -> nat
    decreases es.len(),
{
    if es.len() == 0 {
        0
    } else {
        (if (close && es[0] is Close) || (!close && es[0] is Open) {
            1nat
        } else {
            0
        }) + count_bounds(es.drop_first(), close)
    }
}

/// Each `Collection` item gives one collection start and each `EndCollection` one end.
pub proof fn lemma_collection_events(s: State, items: Seq<(u8, Seq<u8>)>)
    ensures
        count_bounds(run(s, items).1, false) == count_tag(items, COLLECTION),
        count_bounds(run(s, items).1, true) == count_tag(items, END_COLLECTION),
    decreases items.len(),
{
    if items.len() > 0 {
        let (t, e) = effect(s, items[0].0, items[0].1);
        lemma_collection_events(t, items.drop_first());
        let es = run(t, items.drop_first()).1;
        if !(e is Skip) {
            assert((seq![e] + es).drop_first() =~= es);
        }
    }
}

/// If no prefix of `items` has more than `k` more `EndCollection`s than `Collection`s, no
/// prefix of the effects has more than `k` more collection ends than starts.
pub proof fn lemma_prefix_bounds(s: State, items: Seq<(u8, Seq<u8>)>, k: int)
    requires
        forall|n: int|
            0 <= n <= items.len() ==> count_tag(#[trigger] items.take(n), COLLECTION) + k >= count_tag(
                items.take(n),
                END_COLLECTION,
            ),
    ensures
        forall|m: int|
            0 <= m <= run(s, items).1.len() ==> count_bounds(#[trigger] run(s, items).1.take(m), false)
                + k >= count_bounds(run(s, items).1.take(m), true),
    decreases items.len(),
{
    assert(items.take(0) =~= Seq::<(u8, Seq<u8>)>::empty());
    if items.len() == 0 {
        assert forall|m: int| 0 <= m <= run(s, items).1.len() implies count_bounds(
            #[trigger] run(s, items).1.take(m),
            false,
        ) + k >= count_bounds(run(s, items).1.take(m), true) by {
            assert(run(s, items).1.take(m) =~= Seq::<Effect>::empty());
        }
    } else {
        let x = items[0];
        let rest = items.drop_first();
        let (t, e) = effect(s, x.0, x.1);
        let up: int = if x.0 == COLLECTION { 1 } else { 0 };
        let down: int = if x.0 == END_COLLECTION { 1 } else { 0 };
        assert forall|n: int| 0 <= n <= rest.len() implies count_tag(
            #[trigger] rest.take(n),
            COLLECTION,
        ) + (k + up - down) >= count_tag(rest.take(n), END_COLLECTION) by {
            assert(items.take(n + 1).drop_first() =~= rest.take(n));
            assert(items.take(n + 1)[0] == x);
            assert(count_tag(items.take(n + 1), COLLECTION) + k >= count_tag(
                items.take(n + 1),
                END_COLLECTION,
            ));
        }
        lemma_prefix_bounds(t, rest, k + up - down);
        let es = run(t, rest).1;
        assert forall|m: int| 0 <= m <= run(s, items).1.len() implies count_bounds(
            #[trigger] run(s, items).1.take(m),
            false,
        ) + k >= count_bounds(run(s, items).1.take(m), true) by {
            if m == 0 {
                assert(run(s, items).1.take(m) =~= Seq::<Effect>::empty());
            } else if !(e is Skip) {
                let all = seq![e] + es;
                assert(all.take(m).drop_first() =~= es.take(m - 1));
                assert(all.take(m)[0] == e);
                assert(count_bounds(es.take(m - 1), false) + (k + up - down) >= count_bounds(
                    es.take(m - 1),
                    true,
                ));
            } else {
                assert(count_bounds(es.take(m), false) + (k + up - down) >= count_bounds(
                    es.take(m),
                    true,
                ));
            }
        }
    }
}

/// Items with as many `Collection`s as `EndCollection`s give as many collection starts as
/// collection ends.
pub proof fn lemma_collection_balance(s: State, items: Seq<(u8, Seq<u8>)>)
    requires
        count_tag(items, COLLECTION) == count_tag(items, END_COLLECTION),
    ensures
        count_bounds(run(s, items).1, false) == count_bounds(run(s, items).1, true),
{
    lemma_collection_events(s, items);
}

/// How a walk over items ends.
pub enum Scan {
    /// The descriptor ended.
    End,
    /// The item at `at` could not be decoded.
    Failed { at: nat, error: ParseError },
    /// The item at `at`, which ends at `next`, had an effect other than `Skip`.
    Found { at: nat, next: nat, effect: Effect },
}

/// Walks the items of `d` from `pos` in state `s` until one has an effect other than `Skip`;
/// gives the state then and how the walk ended.
pub open spec fn scan(d: Seq<u8>, pos: nat, s: State) -> (State, Scan)
    decreases d.len() - pos,
{
    if pos >= d.len() {
        (s, Scan::End)
    } else {
        let rest = d.skip(pos as int);
        match decode_error(rest) {
            Some(error) => (s, Scan::Failed { at: pos, error }),
            None => {
                let next = pos + item_len(rest);
                let (t, e) = effect(s, item_tag(rest), item_payload(rest));
                if e is Skip {
                    scan(d, next, t)
                } else {
                    (t, Scan::Found { at: pos, next, effect: e })
                }
            },
        }
    }
}

/// The items of `d` from `pos`, each as its tag and payload, up to the end of `d` or to the
/// first item that cannot be decoded.
pub open spec fn items_from(d: Seq<u8>, pos: nat) -> Seq<(u8, Seq<u8>)>
    decreases d.len() - pos,
{
    if pos >= d.len() {
        Seq::empty()
    } else {
        let rest = d.skip(pos as int);
        if decode_error(rest) is Some {
            Seq::empty()
        } else {
            seq![(item_tag(rest), item_payload(rest))] + items_from(d, pos + item_len(rest))
        }
    }
}

/// A walk yields the first effect of running the items from its start, and the rest of the
/// run goes on from where the walk stopped, in the state it left.
pub proof fn lemma_scan_runs(d: Seq<u8>, pos: nat, s: State)
    ensures
        ({
            let (t, outcome) = scan(d, pos, s);
            match outcome {
                Scan::Found { next, effect, .. } => run(s, items_from(d, pos)) == (
                    run(t, items_from(d, next)).0,
                    seq![effect] + run(t, items_from(d, next)).1,
                ),
                _ => run(s, items_from(d, pos)) == (t, Seq::<Effect>::empty()),
            }
        }),
    decreases d.len() - pos,
{
    if pos < d.len() {
        let rest = d.skip(pos as int);
        if decode_error(rest) is None {
            let next = pos + item_len(rest);
            let items = items_from(d, pos);
            assert(items.drop_first() =~= items_from(d, next));
            let (t, e) = effect(s, item_tag(rest), item_payload(rest));
            if e is Skip {
                lemma_scan_runs(d, next, t);
            }
        }
    }
}

/// Items that the interpreters handle without opening or closing a frame: global items,
/// single usages of up to two bytes, usage bounds, `Input`, `Output`, `Collection` and
/// `EndCollection`.
pub open spec fn handled(tag: u8, p: Seq<u8>) -> bool {
    tag == USAGE_PAGE || tag == LOGI_MIN || tag == LOGI_MAX || tag == PHYS_MIN || tag == PHYS_MAX
        || tag == REPORT_COUNT || tag == REPORT_SIZE || tag == REPORT_ID || tag == UNIT || tag
        == UNIT_EXP || (tag == USAGE && p.len() <= 2) || tag == USAGE_MIN || tag == USAGE_MAX
        || tag == INPUT || tag == OUTPUT || tag == COLLECTION || tag == END_COLLECTION
}

/// Whether every item of `d` from `pos` on decodes and is handled.
pub open spec fn plain_from(d: Seq<u8>, pos: nat) -> bool
    decreases d.len() - pos,
{
    pos >= d.len() || ({
        let rest = d.skip(pos as int);
        &&& decode_error(rest) is None
        &&& handled(item_tag(rest), item_payload(rest))
        &&& plain_from(d, pos + item_len(rest))
    })
}

/// The items of a descriptor whose items from `pos` on are all handled are handled.
pub proof fn lemma_plain_items(d: Seq<u8>, pos: nat)
    requires
        plain_from(d, pos),
    ensures
        forall|i: int|
            0 <= i < items_from(d, pos).len() ==> handled(
                #[trigger] items_from(d, pos)[i].0,
                items_from(d, pos)[i].1,
            ),
    decreases d.len() - pos,
{
    if pos < d.len() {
        let rest = d.skip(pos as int);
        let next = pos + item_len(rest);
        lemma_plain_items(d, next);
        let items = items_from(d, pos);
        assert forall|i: int| 0 <= i < items.len() implies handled(
            #[trigger] items[i].0,
            items[i].1,
        ) by {
            if i > 0 {
                assert(items[i] == items_from(d, next)[i - 1]);
            }
        }
    }
}

/// Handled items that are neither main items nor usage bounds give nothing but single usages.
pub proof fn lemma_between_usages(s: State, items: Seq<(u8, Seq<u8>)>)
    requires
        forall|i: int|
            0 <= i < items.len() ==> handled(#[trigger] items[i].0, items[i].1) && !is_main(
                items[i].0,
            ) && items[i].0 != USAGE_MIN && items[i].0 != USAGE_MAX,
    ensures
        forall|j: int| 0 <= j < run(s, items).1.len() ==> #[trigger] run(s, items).1[j] is Usage,
    decreases items.len(),
{
    if items.len() > 0 {
        let (t, e) = effect(s, items[0].0, items[0].1);
        let rest = items.drop_first();
        assert forall|i: int| 0 <= i < rest.len() implies handled(#[trigger] rest[i].0, rest[i].1)
            && !is_main(rest[i].0) && rest[i].0 != USAGE_MIN && rest[i].0 != USAGE_MAX by {
            assert(rest[i] == items[i + 1]);
        }
        lemma_between_usages(t, rest);
        let es = run(t, rest).1;
        if !(e is Skip) {
            assert forall|j: int| 0 <= j < (seq![e] + es).len() implies #[trigger] (seq![e]
                + es)[j] is Usage by {
                if j > 0 {
                    assert((seq![e] + es)[j] == es[j - 1]);
                }
            }
        }
    }
}

/// Over handled items a walk ends with the descriptor, or finds a usage, a field or a
/// collection bound, after which the items are still handled.
pub proof fn lemma_scan_plain(d: Seq<u8>, pos: nat, s: State)
    requires
        plain_from(d, pos),
    ensures
        match scan(d, pos, s).1 {
            Scan::End => true,
            Scan::Failed { .. } => false,
            Scan::Found { next, effect, .. } => plain_from(d, next) && (effect is Usage
                || effect is Field || effect is Open || effect is Close),
        },
    decreases d.len() - pos,
{
    if pos < d.len() {
        let rest = d.skip(pos as int);
        let next = pos + item_len(rest);
        let (t, e) = effect(s, item_tag(rest), item_payload(rest));
        if e is Skip {
            lemma_scan_plain(d, next, t);
        }
    }
}

/// A walk from `pos` reads nothing before `pos`: two descriptors that agree from `pos` on give
/// the same walk. So what a frame reads after a scope it skipped does not depend on what the
/// scope held.
pub proof fn lemma_scan_reads_ahead(d1: Seq<u8>, d2: Seq<u8>, pos: nat, s: State)
    requires
        pos <= d1.len(),
        d1.len() == d2.len(),
        d1.skip(pos as int) == d2.skip(pos as int),
    ensures
        scan(d1, pos, s) == scan(d2, pos, s),
    decreases d1.len() - pos,
{
    if pos < d1.len() {
        let rest = d1.skip(pos as int);
        if decode_error(rest) is None {
            let next = pos + item_len(rest);
            let (t, e) = effect(s, item_tag(rest), item_payload(rest));
            assert(next <= d1.len());
            assert(d1.skip(next as int) =~= rest.skip(item_len(rest) as int));
            assert(d2.skip(next as int) =~= rest.skip(item_len(rest) as int));
            if e is Skip {
                lemma_scan_reads_ahead(d1, d2, next, t);
            }
        }
    }
}

/// Where the cursor stands after a walk from `pos`.
pub open spec fn scan_end(d: Seq<u8>, pos: nat, s: State) -> nat {
    match scan(d, pos, s).1 {
        Scan::End => d.len(),
        Scan::Failed { at, .. } => at,
        Scan::Found { next, .. } => next,
    }
}

/// Whether an item opens a scope: a `Collection` in the tree model, a `Push` in the flat one.
pub open spec fn opens_scope(tag: u8, nested: bool) -> bool {
    if nested {
        tag == COLLECTION
    } else {
        tag == PUSH
    }
}

/// Whether an item closes a scope: an `EndCollection` in the tree model, a `Pop` in the flat
/// one.
pub open spec fn closes_scope(tag: u8, nested: bool) -> bool {
    if nested {
        tag == END_COLLECTION
    } else {
        tag == POP
    }
}

/// Skips the rest of the `depth - target` innermost open scopes, from `pos`: gives the
/// position, the depth and the state after. A scope ends at its closing item or with the
/// descriptor; every other item in it is skipped, one that cannot be interpreted included. In
/// the tree model (`nested`) the skipped items still act on the state `s`, which all scopes
/// share. A truncated item ends all the scopes and is not skipped.
pub open spec fn drain(d: Seq<u8>, pos: nat, depth: nat, target: nat, nested: bool, s: State) -> (nat, nat, State)
    decreases d.len() - pos,
{
    if depth <= target {
        (pos, depth, s)
    } else if pos >= d.len() {
        (pos, target, s)
    } else {
        let rest = d.skip(pos as int);
        if is_truncated(rest) {
            (pos, target, s)
        } else {
            let next = pos + item_len(rest);
            let (tag, p) = (item_tag(rest), item_payload(rest));
            if !payload_fits(tag, p) {
                drain(d, next, depth, target, nested, s)
            } else {
                let t = if nested {
                    effect(s, tag, p).0
                } else {
                    s
                };
                if opens_scope(tag, nested) {
                    drain(d, next, depth + 1, target, nested, t)
                } else if closes_scope(tag, nested) {
                    drain(d, next, (depth - 1) as nat, target, nested, t)
                } else {
                    drain(d, next, depth, target, nested, t)
                }
            }
        }
    }
}

/// A walk does not go back, and what it finds lies within `d`.
pub proof fn lemma_scan_bounds(d: Seq<u8>, pos: nat, s: State)
    requires
        pos <= d.len(),
    ensures
        pos <= scan_end(d, pos, s) <= d.len(),
        match scan(d, pos, s).1 {
            Scan::End => true,
            Scan::Failed { at, .. } => pos <= at < d.len(),
            Scan::Found { at, next, .. } => pos <= at < next <= d.len(),
        },
    decreases d.len() - pos,
{
    if pos < d.len() {
        let rest = d.skip(pos as int);
        if decode_error(rest) is None {
            let next = pos + item_len(rest);
            let (t, e) = effect(s, item_tag(rest), item_payload(rest));
            if e is Skip {
                lemma_scan_bounds(d, next, t);
            }
        }
    }
}

/// Skipping scopes does not go back, nor past the end of `d`, and leaves the state alone in
/// the flat model.
pub proof fn lemma_drain_bounds(d: Seq<u8>, pos: nat, depth: nat, target: nat, nested: bool, s: State)
    requires
        pos <= d.len(),
    ensures
        pos <= drain(d, pos, depth, target, nested, s).0 <= d.len(),
        !nested ==> drain(d, pos, depth, target, nested, s).2 == s,
    decreases d.len() - pos,
{
    if depth > target && pos < d.len() {
        let rest = d.skip(pos as int);
        if !is_truncated(rest) {
            let next = pos + item_len(rest);
            let (tag, p) = (item_tag(rest), item_payload(rest));
            let t = if nested && payload_fits(tag, p) {
                effect(s, tag, p).0
            } else {
                s
            };
            if !payload_fits(tag, p) {
                lemma_drain_bounds(d, next, depth, target, nested, s);
            } else if opens_scope(tag, nested) {
                lemma_drain_bounds(d, next, depth + 1, target, nested, t);
            } else if closes_scope(tag, nested) {
                lemma_drain_bounds(d, next, (depth - 1) as nat, target, nested, t);
            } else {
                lemma_drain_bounds(d, next, depth, target, nested, t);
            }
        }
    }
}

/// The item at `pos` of `d`, decoded, with the bytes after it.
fn item_at<'a>(data: &'a [u8], pos: usize) -> (r: Result<(Item<'a>, &'a [u8]), ParseError>)
    requires
        pos < data@.len(),
    ensures
        match decode_error(data@.skip(pos as int)) {
            Some(e) => r == Err::<(Item<'a>, &'a [u8]), ParseError>(e),
            None => match r {
                Ok((item, rest)) => denotes(
                    item,
                    item_tag(data@.skip(pos as int)),
                    item_payload(data@.skip(pos as int)),
                ) && rest@ == data@.skip(pos as int).skip(item_len(data@.skip(pos as int)) as int)
                    && pos + item_len(data@.skip(pos as int)) <= data@.len(),
                Err(_) => false,
            },
        },
{
    let rest = slice_subrange(data, pos, data.len());
    assert(rest@ =~= data@.skip(pos as int));
    Item::parse(rest)
}

impl State {
    /// Applies the item `item`, whose tag is `tag` and whose payload is `p`.
    pub fn apply<'a>(&mut self, item: &Item<'a>, Ghost(tag): Ghost<u8>, Ghost(p): Ghost<Seq<u8>>) -> (r: Effect)
        requires
            payload_fits(tag, p),
            denotes(*item, tag, p),
        ensures
            (*final(self), r) == effect(*old(self), tag, p),
    {
        match *item {
            Item::UsagePage(pg) => {
                self.usage_page = pg;
                Effect::Skip
            },
            Item::LogicalMin(n) => {
                self.logical_min = n;
                Effect::Skip
            },
            Item::LogicalMax(n) => {
                self.logical_max = n;
                Effect::Skip
            },
            Item::PhysicalMin(n) => {
                self.physical_min = n;
                Effect::Skip
            },
            Item::PhysicalMax(n) => {
                self.physical_max = n;
                Effect::Skip
            },
            Item::ReportCount(n) => {
                self.report_count = n;
                Effect::Skip
            },
            Item::ReportSize(n) => {
                self.report_size = n;
                Effect::Skip
            },
            Item::ReportId(_) | Item::Unit(_) | Item::UnitExponent(_) => Effect::Skip,
            Item::Usage16(u) => Effect::Usage { page: self.usage_page, min: u, max: u },
            Item::UsageMin(min) => {
                match self.usage_max {
                    Some(max) => {
                        self.usage_min = None;
                        self.usage_max = None;
                        Effect::Usage { page: self.usage_page, min, max }
                    },
                    None => {
                        self.usage_min = Some(min);
                        Effect::Skip
                    },
                }
            },
            Item::UsageMax(max) => {
                match self.usage_min {
                    Some(min) => {
                        self.usage_min = None;
                        self.usage_max = None;
                        Effect::Usage { page: self.usage_page, min, max }
                    },
                    None => {
                        self.usage_max = Some(max);
                        Effect::Skip
                    },
                }
            },
            Item::Input(flags) | Item::Output(flags) => {
                let is_input = match *item {
                    Item::Input(_) => true,
                    _ => false,
                };
                let mut physical_min = self.physical_min;
                let mut physical_max = self.physical_max;
                if physical_min == 0 && physical_max == 0 {
                    physical_min = self.logical_min;
                    physical_max = self.logical_max;
                }
                let field = Field {
                    is_input,
                    flags,
                    logical_min: self.logical_min,
                    logical_max: self.logical_max,
                    physical_min,
                    physical_max,
                    report_count: self.report_count,
                    report_size: self.report_size,
                };
                self.usage_min = None;
                self.usage_max = None;
                Effect::Field(field)
            },
            Item::Collection(kind) => {
                self.usage_min = None;
                self.usage_max = None;
                Effect::Open(kind)
            },
            Item::EndCollection => {
                self.usage_min = None;
                self.usage_max = None;
                Effect::Close
            },
            Item::Push => Effect::Push,
            Item::Pop => Effect::Pop,
            _ => Effect::Unexpected,
        }
    }

    /// Walks the items of `data` from `*pos` until one has an effect other than `Skip`, and
    /// returns that item and its effect; or the error of an item that cannot be decoded, at
    /// which the cursor then stands; or `None` at the end of `data`.
    pub fn scan<'a>(&mut self, data: &'a [u8], pos: &mut usize) -> (r: Option<Result<(Item<'a>, Effect), ParseError>>)
        requires
            *old(pos) <= data@.len(),
        ensures
            *final(self) == scan(data@, *old(pos) as nat, *old(self)).0,
            *final(pos) as nat == scan_end(data@, *old(pos) as nat, *old(self)),
            match scan(data@, *old(pos) as nat, *old(self)).1 {
                Scan::End => r is None,
                Scan::Failed { error, .. } => r == Some(Err::<(Item<'a>, Effect), ParseError>(error)),
                Scan::Found { at, effect, .. } => match r {
                    Some(Ok((item, e))) => e == effect && denotes(
                        item,
                        item_tag(data@.skip(at as int)),
                        item_payload(data@.skip(at as int)),
                    ),
                    _ => false,
                },
            },
    {
        loop
            invariant
                *pos <= data@.len(),
                scan(data@, *pos as nat, *self) == scan(data@, *old(pos) as nat, *old(self)),
            decreases data@.len() - *pos,
        {
            if *pos == data.len() {
                return None;
            }
            match item_at(data, *pos) {
                Err(e) => return Some(Err(e)),
                Ok((item, rest)) => {
                    let ghost rest_before = data@.skip(*pos as int);
                    let e = self.apply(&item, Ghost(item_tag(rest_before)), Ghost(item_payload(rest_before)));
                    *pos = data.len() - rest.len();
                    match e {
                        Effect::Skip => {},
                        _ => return Some(Ok((item, e))),
                    }
                },
            }
        }
    }
}

/// Skips the rest of the `depth - target` innermost open scopes of `data`, from `*pos`, and
/// returns the depth after. In the tree model (`nested`) the skipped items act on `state`.
pub fn skip_scopes(
    data: &[u8],
    pos: &mut usize,
    depth: usize,
    target: usize,
    nested: bool,
    state: &mut State,
) -> (r: usize)
    requires
        *old(pos) <= data@.len() < usize::MAX,
        depth <= *old(pos) + 1,
    ensures
        (*final(pos) as nat, r as nat, *final(state)) == drain(
            data@,
            *old(pos) as nat,
            depth as nat,
            target as nat,
            nested,
            *old(state),
        ),
        *final(pos) <= data@.len(),
        r <= *final(pos) + 1,
        depth <= target ==> r == depth,
        depth >= target ==> r == target,
        !nested ==> *final(state) == *old(state),
{
    let mut level = depth;
    loop
        invariant
            *pos <= data@.len() < usize::MAX,
            level <= *pos + 1,
            depth <= target ==> level == depth,
            depth >= target ==> level >= target,
            !nested ==> *state == *old(state),
            drain(data@, *pos as nat, level as nat, target as nat, nested, *state) == drain(
                data@,
                *old(pos) as nat,
                depth as nat,
                target as nat,
                nested,
                *old(state),
            ),
        decreases data@.len() - *pos,
    {
        if level <= target {
            return level;
        }
        if *pos == data.len() {
            return target;
        }
        let here = slice_subrange(data, *pos, data.len());
        assert(here@ =~= data@.skip(*pos as int));
        match split(here) {
            Err(_) => return target,
            Ok((tag, payload, rest)) => {
                *pos = data.len() - rest.len();
                match Item::decode(tag, payload) {
                    Err(_) => {},
                    Ok(item) => {
                        if nested {
                            state.apply(&item, Ghost(tag), Ghost(payload@));
                        }
                        let (opens, closes) = match item {
                            Item::Collection(_) => (nested, false),
                            Item::EndCollection => (false, nested),
                            Item::Push => (!nested, false),
                            Item::Pop => (false, !nested),
                            _ => (false, false),
                        };
                        if opens {
                            level = level + 1;
                        } else if closes {
                            level = level - 1;
                        }
                    },
                }
            },
        }
    }
}

} // verus!
