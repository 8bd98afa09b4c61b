//! How storage-change notifications act on the catalog.
use vstd::prelude::*;
use vstd::string::*;
use crate::catalog::{Catalog, CatalogView, latest_name};
use crate::dict::{Dataset, Timestamp, PARTITION_LATEST};
use crate::error::{Error, PubsubAction};
use crate::notification::{Attributes, Event, Notification, Payload};
use crate::path::{dataset_name, partition_name, leading_component, partition_part};
use crate::text::{owned, str_eq};

verus! {

pub open spec fn digit_value(c: char) -> int {
    c as int - '0' as int
}

pub open spec fn is_digit(c: char) -> bool {
    '0' <= c && c <= '9'
}

/// The value of a run of decimal digits.
pub open spec fn digits_value(s: Seq<char>) -> int
    decreases s.len(),
{
    if s.len() == 0 {
        0
    } else {
        digits_value(s.drop_last()) * 10 + digit_value(s.last())
    }
}

pub open spec fn all_digits(s: Seq<char>) -> bool {
    forall|i: int| 0 <= i < s.len() ==> is_digit(#[trigger] s[i])
}

/// The value of one or more decimal digits, where it is at most `bound`.
pub open spec fn digits_within(s: Seq<char>, bound: int) -> Option<int> {
    if s.len() > 0 && all_digits(s) && digits_value(s) <= bound {
        Some(digits_value(s))
    } else {
        None
    }
}

/// The size that a payload's text gives, read as an `i64` in decimal: an optional `+` or `-`,
/// then one or more digits, within the range of `i64`.
pub open spec fn parsed_size(s: Seq<char>) -> Option<i64> {
    if s.len() > 0 && s[0] == '-' {
        match digits_within(s.drop_first(), i64::MAX + 1) {
            Some(v) => Some((-v) as i64),
            None => None,
        }
    } else {
        let ds = if s.len() > 0 && s[0] == '+' { s.drop_first() } else { s };
        match digits_within(ds, i64::MAX as int) {
            Some(v) => Some(v as i64),
            None => None,
        }
    }
}

proof fn lemma_digits_nonneg(s: Seq<char>)
    requires
        all_digits(s),
    ensures
        digits_value(s) >= 0,
    decreases s.len(),
{
    if s.len() > 0 {
        assert(is_digit(s[s.len() - 1]));
        lemma_digits_nonneg(s.drop_last());
    }
}

proof fn lemma_digits_grow(s: Seq<char>, i: int)
    requires
        0 <= i < s.len(),
        all_digits(s),
    ensures
        digits_value(s.subrange(0, i)) <= digits_value(s),
    decreases s.len(),
{
    lemma_digits_nonneg(s.drop_last());
    assert(is_digit(s[s.len() - 1]));
    if i < s.len() - 1 {
        assert(s.drop_last().subrange(0, i) =~= s.subrange(0, i));
        lemma_digits_grow(s.drop_last(), i);
    } else {
        assert(s.drop_last() =~= s.subrange(0, i));
    }
}

/// Reads one or more decimal digits whose value is at most `bound`.
fn parse_digits(s: &str, bound: u64) -> (r: Option<u64>)
    ensures
        r is Some <==> digits_within(s@, bound as int) is Some,
        r matches Some(v) ==> digits_within(s@, bound as int) == Some(v as int),
{
    let n = s.unicode_len();
    if n == 0 {
        return None;
    }
    let mut acc: u64 = 0;
    let mut i: usize = 0;
    while i < n
        invariant
            n == s@.len(),
            i <= n,
            forall|k: int| 0 <= k < i ==> is_digit(#[trigger] s@[k]),
            acc as int == digits_value(s@.subrange(0, i as int)),
            acc <= bound,
        decreases n - i,
    {
        let c = s.get_char(i);
        assert(s@.subrange(0, i + 1).drop_last() =~= s@.subrange(0, i as int));
        if !('0' <= c && c <= '9') {
            assert(!is_digit(s@[i as int]));
            return None;
        }
        let d = (c as u32 - '0' as u32) as u64;
        assert(d as int == digit_value(c));
        if d > bound || acc > (bound - d) / 10 {
            proof {
                assert(digits_value(s@.subrange(0, i + 1)) > bound) by (nonlinear_arith)
                    requires
                        d > bound || acc > (bound - d) / 10,
                        digits_value(s@.subrange(0, i + 1)) == acc * 10 + d,
                        0 <= d <= 9,
                        0 <= acc,
                ;
                if all_digits(s@) {
                    if i + 1 < n {
                        lemma_digits_grow(s@, i + 1);
                    } else {
                        assert(s@.subrange(0, i + 1) =~= s@);
                    }
                }
            }
            return None;
        }
        assert(0 <= acc * 10 + d <= bound) by (nonlinear_arith)
            requires
                0 <= acc <= (bound - d) / 10,
                0 <= d <= 9,
                d <= bound,
        ;
        acc = acc * 10 + d;
        i = i + 1;
    }
    assert(s@.subrange(0, n as int) =~= s@);
    Some(acc)
}

/// Parses an object size as `i64` does: an optional `+` or `-`, then decimal digits, within
/// the range of `i64`.
pub fn parse_size(s: &str) -> (r: Option<i64>)
    ensures
        r == parsed_size(s@),
{
    let n = s.unicode_len();
    if n > 0 && s.get_char(0) == '-' {
        let rest = s.substring_char(1, n);
        assert(rest@ =~= s@.drop_first());
        match parse_digits(rest, 9223372036854775808u64) {
            Some(v) => {
                assert(digits_within(s@.drop_first(), i64::MAX + 1) == Some(v as int));
                if v == 9223372036854775808u64 {
                    Some(i64::MIN)
                } else {
                    Some(-(v as i64))
                }
            },
            None => None,
        }
    } else {
        let rest = if n > 0 && s.get_char(0) == '+' {
            let r = s.substring_char(1, n);
            assert(r@ =~= s@.drop_first());
            r
        } else {
            s
        };
        match parse_digits(rest, 9223372036854775807u64) {
            Some(v) => {
                assert(digits_within(rest@, i64::MAX as int) == Some(v as int));
                Some(v as i64)
            },
            None => None,
        }
    }
}

/// What a notification asks of the catalog.
#[derive(Debug, Clone)]
pub enum Action {
    /// Nothing changes; the message is acknowledged.
    Nothing,
    /// The message is dropped and acknowledged.
    Ignore,
    UpsertPartition { dataset: String, name: String, url: String, size: i64 },
    DeletePartition { dataset: String, name: String },
    DeleteDataset { dataset: String },
}

/// An action as plain values.
pub enum ActionView {
    Nothing,
    Ignore,
    UpsertPartition { dataset: Seq<char>, name: Seq<char>, url: Seq<char>, size: i64 },
    DeletePartition { dataset: Seq<char>, name: Seq<char> },
    DeleteDataset { dataset: Seq<char> },
}

impl View for Action {
    type V = ActionView;

    open spec fn view(&self) -> ActionView {
        match self {
            Action::Nothing => ActionView::Nothing,
            Action::Ignore => ActionView::Ignore,
            Action::UpsertPartition { dataset, name, url, size } => ActionView::UpsertPartition {
                dataset: dataset@,
                name: name@,
                url: url@,
                size: *size,
            },
            Action::DeletePartition { dataset, name } => ActionView::DeletePartition {
                dataset: dataset@,
                name: name@,
            },
            Action::DeleteDataset { dataset } => ActionView::DeleteDataset { dataset: dataset@ },
        }
    }
}

/// A delete that an overwrite of the object caused; it is acknowledged and changes nothing.
pub open spec fn is_overwrite_delete(a: Attributes) -> bool {
    a.event_type == Event::ObjectDelete && a.overwritten_by_generation is Some
}

impl Attributes {
    /// Whether these attributes report a delete that an overwrite caused.
    pub fn is_overwrite_delete(&self) -> (r: bool)
        ensures
            r == is_overwrite_delete(*self),
    {
        match self.event_type {
            Event::ObjectDelete => self.overwritten_by_generation.is_some(),
            _ => false,
        }
    }
}

/// What a notification with a decoded payload asks for; `None` where the payload is unusable: its
/// path has no dataset component, or a write carries a size that is not an `i64`. A descriptor
/// path names the dataset itself; writes to it change nothing, and a delete of it deletes the
/// dataset. A write to a partition path upserts the partition, except for the reserved name,
/// which is ignored.
pub open spec fn plan_of(a: Attributes, p: Payload) -> Option<ActionView> {
    let path = p.name@;
    let ds = leading_component(path);
    if is_overwrite_delete(a) {
        Some(ActionView::Nothing)
    } else if ds.len() == 0 {
        None
    } else {
        match partition_part(path) {
            None => if a.event_type == Event::ObjectDelete {
                Some(ActionView::DeleteDataset { dataset: ds })
            } else {
                Some(ActionView::Nothing)
            },
            Some(name) => if a.event_type == Event::ObjectDelete {
                Some(ActionView::DeletePartition { dataset: ds, name })
            } else if name == latest_name() {
                Some(ActionView::Ignore)
            } else {
                match parsed_size(p.size@) {
                    None => None,
                    Some(size) => Some(
                        ActionView::UpsertPartition { dataset: ds, name, url: p.self_link@, size },
                    ),
                }
            },
        }
    }
}

/// Decides what a notification asks of the catalog. A path with no dataset component, or a
/// write whose size is not an `i64`, is refused.
pub fn plan_event(attrs: &Attributes, payload: &Payload) -> (r: Result<Action, Error>)
    ensures
        match plan_of(*attrs, *payload) {
            Some(v) => r matches Ok(a) && a@ == v,
            None => r matches Err(Error::InputValidation(_)),
        },
{
    let is_delete = match attrs.event_type {
        Event::ObjectDelete => true,
        _ => false,
    };
    if is_delete && attrs.overwritten_by_generation.is_some() {
        return Ok(Action::Nothing);
    }
    let path = payload.name.as_str();
    let dataset = match dataset_name(path) {
        Ok(d) => d,
        Err(e) => return Err(e),
    };
    let partition = match partition_name(path) {
        Ok(p) => p,
        Err(e) => return Err(e),
    };
    match partition {
        None => if is_delete {
            Ok(Action::DeleteDataset { dataset })
        } else {
            Ok(Action::Nothing)
        },
        Some(name) => if is_delete {
            Ok(Action::DeletePartition { dataset, name })
        } else if str_eq(name.as_str(), PARTITION_LATEST) {
            Ok(Action::Ignore)
        } else {
            match parse_size(payload.size.as_str()) {
                None => Err(Error::InputValidation(owned("object size is not a decimal integer"))),
                Some(size) => Ok(
                    Action::UpsertPartition { dataset, name, url: payload.self_link.clone(), size },
                ),
            }
        },
    }
}

/// How handling a notification ended.
#[derive(Debug, Clone, Copy, PartialEq, Eq, Structural)]
pub enum Outcome {
    /// Applied; acknowledge.
    Done,
    /// Dropped on purpose; acknowledge.
    Ignored,
    /// Failed; leave unacknowledged so that it is delivered again.
    Failed,
}

/// The catalog after an action, and how the action ended. A partition action on a dataset that
/// is not in the catalog fails; a delete of such a dataset is ignored.
pub open spec fn apply_of(c: CatalogView, a: ActionView, now: Timestamp) -> (CatalogView, Outcome) {
    match a {
        ActionView::Nothing => (c, Outcome::Done),
        ActionView::Ignore => (c, Outcome::Ignored),
        ActionView::UpsertPartition { dataset, name, url, size } => match c.lookup_dataset(dataset) {
            None => (c, Outcome::Failed),
            Some(d) => if c.can_upsert(d.id, name) {
                (c.upsert_partition(d.id, name, url, size, now), Outcome::Done)
            } else {
                (c, Outcome::Failed)
            },
        },
        ActionView::DeletePartition { dataset, name } => match c.lookup_dataset(dataset) {
            None => (c, Outcome::Failed),
            Some(d) => (c.remove_partition(d.id, name), Outcome::Done),
        },
        ActionView::DeleteDataset { dataset } => match c.lookup_dataset(dataset) {
            None => (c, Outcome::Ignored),
            Some(d) => (c.remove_dataset(dataset), Outcome::Done),
        },
    }
}

pub open spec fn outcome_of(r: Result<(), Error>) -> Outcome {
    match r {
        Ok(_) => Outcome::Done,
        Err(Error::Pubsub(PubsubAction::IgnoreAndAck)) => Outcome::Ignored,
        Err(_) => Outcome::Failed,
    }
}

fn ignore_and_ack() -> (e: Error)
    ensures
        e == Error::Pubsub(PubsubAction::IgnoreAndAck),
{
    Error::Pubsub(PubsubAction::IgnoreAndAck)
}

/// The dataset whose row an action needs before it can be carried out, if any.
pub open spec fn action_dataset(a: ActionView) -> Option<Seq<char>> {
    match a {
        ActionView::UpsertPartition { dataset, .. } => Some(dataset),
        ActionView::DeletePartition { dataset, .. } => Some(dataset),
        ActionView::DeleteDataset { dataset } => Some(dataset),
        _ => None,
    }
}

impl Action {
    /// The dataset whose row this action needs, if any.
    pub fn dataset(&self) -> (r: Option<&String>)
        ensures
            match action_dataset(self@) {
                Some(d) => r matches Some(s) && s@ == d,
                None => r is None,
            },
    {
        match self {
            Action::UpsertPartition { dataset, .. } => Some(dataset),
            Action::DeletePartition { dataset, .. } => Some(dataset),
            Action::DeleteDataset { dataset } => Some(dataset),
            _ => None,
        }
    }
}

/// How an action ends before its write, given what looking its dataset up gave (`Ok(true)`
/// where the dataset was found): `None` where the write is to go ahead. Only a missing dataset
/// is decided here: a delete of it is ignored and acknowledged, and any other action on it
/// fails; a failed lookup fails the action with the lookup's error.
pub fn after_lookup(action: &Action, lookup: Result<bool, Error>) -> (r: Option<Result<(), Error>>)
    ensures
        match action@ {
            ActionView::Nothing => r == Some(Ok::<(), Error>(())),
            ActionView::Ignore => r == Some(Err::<(), Error>(Error::Pubsub(PubsubAction::IgnoreAndAck))),
            ActionView::DeleteDataset { .. } => match lookup {
                Err(e) => r == Some(Err::<(), Error>(e)),
                Ok(true) => r is None,
                Ok(false) => r == Some(Err::<(), Error>(Error::Pubsub(PubsubAction::IgnoreAndAck))),
            },
            _ => match lookup {
                Err(e) => r == Some(Err::<(), Error>(e)),
                Ok(true) => r is None,
                Ok(false) => r matches Some(Err(Error::Sql(_))),
            },
        },
{
    match action {
        Action::Nothing => Some(Ok(())),
        Action::Ignore => Some(Err(ignore_and_ack())),
        Action::DeleteDataset { .. } => match lookup {
            Err(e) => Some(Err(e)),
            Ok(true) => None,
            Ok(false) => Some(Err(ignore_and_ack())),
        },
        _ => match lookup {
            Err(e) => Some(Err(e)),
            Ok(true) => None,
            Ok(false) => Some(Err(Error::Sql(owned("no dataset found with that name")))),
        },
    }
}

/// Applies an action to the catalog.
pub fn apply_action(catalog: &mut Catalog, action: &Action, now: Timestamp) -> (r: Result<(), Error>)
    requires
        old(catalog)@.wf(),
    ensures
        final(catalog)@.wf(),
        final(catalog)@ == apply_of(old(catalog)@, action@, now).0,
        outcome_of(r) == apply_of(old(catalog)@, action@, now).1,
{
    let found: Option<Dataset> = match action.dataset() {
        Some(name) => match catalog.find_dataset(name.as_str()) {
            Ok(d) => Some(d),
            Err(_) => None,
        },
        None => None,
    };
    if let Some(end) = after_lookup(action, Ok(found.is_some())) {
        return end;
    }
    let d = match found {
        Some(d) => d,
        None => return Err(Error::Sql(owned("no dataset found with that name"))),
    };
    match action {
        Action::UpsertPartition { name, url, size, .. } => {
            match catalog.register_partition(&d, name.as_str(), url.as_str(), *size, now) {
                Ok(_) => Ok(()),
                Err(e) => {
                    assert(!(e is Pubsub));
                    Err(e)
                },
            }
        },
        Action::DeletePartition { name, .. } => catalog.delete_partition(&d, name.as_str()),
        Action::DeleteDataset { .. } => catalog.delete_dataset(&d),
        _ => Ok(()),
    }
}

/// The acknowledgement of a notification where it is settled before its payload is read: an
/// overwrite's delete is acknowledged, and a notification whose payload could not be decoded is
/// not.
pub fn early_ack(n: &Notification) -> (r: Option<bool>)
    ensures
        is_overwrite_delete(n.attributes) ==> r == Some(true),
        !is_overwrite_delete(n.attributes) && n.payload is None ==> r == Some(false),
        !is_overwrite_delete(n.attributes) && n.payload is Some ==> r is None,
{
    if n.attributes.is_overwrite_delete() {
        Some(true)
    } else if n.payload.is_none() {
        Some(false)
    } else {
        None
    }
}

/// The catalog after a notification with a decoded payload, and how it ended.
pub open spec fn payload_effect(c: CatalogView, a: Attributes, p: Payload, now: Timestamp) -> (
    CatalogView,
    Outcome,
) {
    match plan_of(a, p) {
        None => (c, Outcome::Failed),
        Some(act) => apply_of(c, act, now),
    }
}

/// Interprets one notification against the catalog.
pub fn handle_payload(catalog: &mut Catalog, payload: &Payload, attrs: &Attributes, now: Timestamp) -> (r: Result<(), Error>)
    requires
        old(catalog)@.wf(),
    ensures
        final(catalog)@.wf(),
        final(catalog)@ == payload_effect(old(catalog)@, *attrs, *payload, now).0,
        outcome_of(r) == payload_effect(old(catalog)@, *attrs, *payload, now).1,
{
    let action = match plan_event(attrs, payload) {
        Ok(a) => a,
        Err(e) => return Err(e),
    };
    apply_action(catalog, &action, now)
}

/// Whether a message is acknowledged after handling ended so.
pub open spec fn acked(o: Outcome) -> bool {
    o != Outcome::Failed
}

/// Whether the loop acknowledges a message whose handling gave `r`: on success, and where the
/// handler asked to ignore it.
pub fn should_ack(r: &Result<(), Error>) -> (ack: bool)
    ensures
        ack == acked(outcome_of(*r)),
{
    match r {
        Ok(_) => true,
        Err(Error::Pubsub(PubsubAction::IgnoreAndAck)) => true,
        Err(_) => false,
    }
}

/// The catalog after a notification, and whether it is acknowledged. An overwrite's delete is
/// acknowledged and changes nothing, whatever its payload; otherwise an undecoded payload
/// fails.
pub open spec fn notification_effect(c: CatalogView, n: Notification, now: Timestamp) -> (CatalogView, bool) {
    if is_overwrite_delete(n.attributes) {
        (c, true)
    } else {
        match n.payload {
            None => (c, false),
            Some(p) => {
                let e = payload_effect(c, n.attributes, p, now);
                (e.0, acked(e.1))
            },
        }
    }
}

/// Handles one notification and says whether to acknowledge it.
pub fn handle_notification(catalog: &mut Catalog, n: &Notification, now: Timestamp) -> (ack: bool)
    requires
        old(catalog)@.wf(),
    ensures
        final(catalog)@.wf(),
        (final(catalog)@, ack) == notification_effect(old(catalog)@, *n, now),
{
    if let Some(ack) = early_ack(n) {
        return ack;
    }
    match &n.payload {
        None => false,
        Some(p) => {
            let r = handle_payload(catalog, p, &n.attributes, now);
            should_ack(&r)
        },
    }
}


/// Message `i` comes before message `j`: an earlier event time, or the same time and an earlier
/// place in the pull.
pub open spec fn before(times: Seq<Timestamp>, i: int, j: int) -> bool {
    times[i] < times[j] || (times[i] == times[j] && i < j)
}

/// `order` lists every position of the batch once, by event time, ties in pull order.
pub open spec fn is_event_order(times: Seq<Timestamp>, order: Seq<usize>) -> bool {
    &&& order.len() == times.len()
    &&& forall|k: int| 0 <= k < order.len() ==> (#[trigger] order[k]) < times.len()
    &&& forall|k: int, l: int|
        0 <= k < l < order.len() ==> before(times, #[trigger] order[k] as int, #[trigger] order[l] as int)
    &&& forall|i: int| 0 <= i < times.len() ==> #[trigger] order.contains(i as usize)
}

/// The order in which a batch is applied: a stable sort of the positions by event time.
pub fn event_order(times: &Vec<Timestamp>) -> (order: Vec<usize>)
    ensures
        is_event_order(times@, order@),
{
    let n = times.len();
    let mut order: Vec<usize> = Vec::new();
    let mut i: usize = 0;
    while i < n
        invariant
            n == times@.len(),
            i <= n,
            order@.len() == i,
            forall|k: int| 0 <= k < order@.len() ==> (#[trigger] order@[k]) < i,
            forall|k: int, l: int|
                0 <= k < l < order@.len() ==> before(times@, #[trigger] order@[k] as int, #[trigger] order@[l] as int),
            forall|j: int| 0 <= j < i ==> #[trigger] order@.contains(j as usize),
        decreases n - i,
    {
        let t = times[i];
        let mut p: usize = 0;
        while p < order.len() && times[order[p]] <= t
            invariant
                n == times@.len(),
                i < n,
                p <= order@.len(),
                forall|k: int| 0 <= k < order@.len() ==> (#[trigger] order@[k]) < i,
                forall|k: int| 0 <= k < p ==> times@[#[trigger] order@[k] as int] <= t,
                t == times@[i as int],
            decreases order@.len() - p,
        {
            p = p + 1;
        }
        let ghost old_order = order@;
        order.insert(p, i);
        proof {
            assert(order@ =~= old_order.subrange(0, p as int).push(i).add(old_order.subrange(p as int, old_order.len() as int)));
            assert forall|k: int| 0 <= k < order@.len() implies (#[trigger] order@[k]) < i + 1 by {
                if k < p { assert(order@[k] == old_order[k]); }
                else if k > p { assert(order@[k] == old_order[k - 1]); }
            }
            assert forall|k: int, l: int|
                0 <= k < l < order@.len() implies before(times@, #[trigger] order@[k] as int, #[trigger] order@[l] as int) by {
                if l < p {
                    assert(order@[k] == old_order[k] && order@[l] == old_order[l]);
                } else if l == p {
                    assert(order@[k] == old_order[k]);
                    assert(times@[old_order[k] as int] <= t);
                } else if k == p {
                    assert(order@[l] == old_order[l - 1]);
                    if p < old_order.len() {
                        assert(times@[old_order[p as int] as int] > t);
                        if l - 1 > p {
                            assert(before(times@, old_order[p as int] as int, old_order[l - 1] as int));
                        }
                    }
                } else if k < p {
                    assert(order@[k] == old_order[k] && order@[l] == old_order[l - 1]);
                } else {
                    assert(order@[k] == old_order[k - 1] && order@[l] == old_order[l - 1]);
                }
            }
            assert forall|j: int| 0 <= j < i + 1 implies #[trigger] order@.contains(j as usize) by {
                if j == i {
                    assert(order@[p as int] == i);
                } else {
                    assert(old_order.contains(j as usize));
                    let k = choose|k: int| 0 <= k < old_order.len() && old_order[k] == j as usize;
                    if k < p {
                        assert(order@[k] == old_order[k]);
                    } else {
                        assert(order@[k + 1] == old_order[k]);
                    }
                }
            }
        }
        i = i + 1;
    }
    order
}

/// The catalog after the first `k` notifications of the batch in the given order, and the
/// acknowledgement of each position handled so far.
pub open spec fn run_batch(
    c: CatalogView,
    batch: Seq<Notification>,
    order: Seq<usize>,
    now: Timestamp,
    k: nat,
) -> (CatalogView, Map<int, bool>)
    decreases k,
{
    if k == 0 {
        (c, Map::empty())
    } else {
        let prev = run_batch(c, batch, order, now, (k - 1) as nat);
        let pos = order[k - 1] as int;
        let e = notification_effect(prev.0, batch[pos], now);
        (e.0, prev.1.insert(pos, e.1))
    }
}

/// Handles a pulled batch: the notifications are applied one at a time in event-time order
/// (ties in pull order), and the result says, by position in the batch, which to acknowledge.
pub fn ingest_batch(catalog: &mut Catalog, batch: &Vec<Notification>, now: Timestamp) -> (acks: Vec<bool>)
    requires
        old(catalog)@.wf(),
    ensures
        final(catalog)@.wf(),
        acks@.len() == batch@.len(),
        exists|order: Seq<usize>| {
            &&& is_event_order(batch@.map_values(|n: Notification| n.attributes.event_time), order)
            &&& final(catalog)@ == run_batch(old(catalog)@, batch@, order, now, batch@.len()).0
            &&& forall|i: int| 0 <= i < batch@.len() ==> #[trigger] acks@[i] == run_batch(
                old(catalog)@, batch@, order, now, batch@.len()).1[i]
        },
{
    let n = batch.len();
    let mut times: Vec<Timestamp> = Vec::new();
    let mut i: usize = 0;
    while i < n
        invariant
            n == batch@.len(),
            i <= n,
            times@ =~= batch@.subrange(0, i as int).map_values(|m: Notification| m.attributes.event_time),
        decreases n - i,
    {
        times.push(batch[i].attributes.event_time);
        i = i + 1;
    }
    assert(batch@.subrange(0, n as int) =~= batch@);
    let order = event_order(&times);
    let ghost start = catalog@;
    let mut acks: Vec<bool> = Vec::new();
    let mut j: usize = 0;
    while j < n
        invariant
            n == batch@.len(),
            j <= n,
            acks@.len() == j,
            catalog@.wf(),
            is_event_order(times@, order@),
            times@.len() == n,
        decreases n - j,
    {
        acks.push(false);
        j = j + 1;
    }
    let mut k: usize = 0;
    while k < n
        invariant
            n == batch@.len(),
            k <= n,
            acks@.len() == n,
            catalog@.wf(),
            is_event_order(times@, order@),
            times@.len() == n,
            catalog@ == run_batch(start, batch@, order@, now, k as nat).0,
            forall|i: int| 0 <= i < n ==> (#[trigger] run_batch(start, batch@, order@, now, k as nat).1.contains_key(i)
                ==> acks@[i] == run_batch(start, batch@, order@, now, k as nat).1[i]),
            forall|i: int| #[trigger] run_batch(start, batch@, order@, now, k as nat).1.contains_key(i)
                <==> exists|l: int| 0 <= l < k && order@[l] as int == i,
        decreases n - k,
    {
        let pos = order[k];
        let ack = handle_notification(catalog, &batch[pos], now);
        acks.set(pos, ack);
        proof {
            let prev = run_batch(start, batch@, order@, now, k as nat);
            let next = run_batch(start, batch@, order@, now, (k + 1) as nat);
            assert(next.1 == prev.1.insert(pos as int, ack));
            assert forall|i: int| #[trigger] next.1.contains_key(i)
                <==> exists|l: int| 0 <= l < k + 1 && order@[l] as int == i by {
                if next.1.contains_key(i) && i != pos {
                    assert(prev.1.contains_key(i));
                }
                if exists|l: int| 0 <= l < k + 1 && order@[l] as int == i {
                    let l = choose|l: int| 0 <= l < k + 1 && order@[l] as int == i;
                    if l < k {
                        assert(prev.1.contains_key(i));
                    }
                }
            }
        }
        k = k + 1;
    }
    proof {
        let fin = run_batch(start, batch@, order@, now, n as nat);
        assert forall|i: int| 0 <= i < batch@.len() implies #[trigger] acks@[i] == fin.1[i] by {
            assert(order@.contains(i as usize));
            let l = choose|l: int| 0 <= l < order@.len() && order@[l] == i as usize;
            assert(fin.1.contains_key(i));
        }
        assert(times@ =~= batch@.map_values(|m: Notification| m.attributes.event_time));
    }
    acks
}

} // verus!
verus! {

/// What base64 (standard alphabet, with padding) decodes a string to, or `None` where it is not
/// valid base64.
pub uninterp spec fn base64_decoded(s: Seq<char>) -> Option<Seq<u8>>;

/// Relies on base64's `decode` (standard configuration): the decoded bytes, or an error where
/// the input is not valid base64.
#[verifier::external_body]
fn base64_decode(data: &str) -> (r: Option<Vec<u8>>)
    ensures
        r is Some == base64_decoded(data@) is Some,
        r is Some ==> r.unwrap()@ == base64_decoded(data@).unwrap(),
{
    base64::decode(data).ok()
}

/// Decodes a message's `data` field into the bytes of its JSON payload.
pub fn decode_data(data: &str) -> (r: Result<Vec<u8>, Error>)
    ensures
        match base64_decoded(data@) {
            Some(b) => r matches Ok(v) && v@ == b,
            None => r matches Err(Error::Generic(_)),
        },
{
    match base64_decode(data) {
        Some(v) => Ok(v),
        None => Err(Error::Generic(owned("payload data is not valid base64"))),
    }
}

} // verus!
