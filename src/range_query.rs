//! The SQL text and bind values of a range query over partitions or datasets.
//!
//! A partition query has `dataset_id` in slot `$1`, so its bounds start at `$2`; the dataset form
//! of a query is the partition form with every slot moved down by one.
use vstd::prelude::*;
use vstd::string::*;
use crate::dict::{RangeParams, Timestamp};
use crate::text::{owned, push_all, push_char};

verus! {

/// What a range query lists.
#[derive(Debug, Clone, Copy, PartialEq, Eq, Structural)]
pub enum Target {
    Dataset,
    Partition,
}

/// A value bound to a placeholder of a range query.
#[derive(Debug, Clone, Copy, PartialEq, Eq, Structural)]
pub enum BindValue {
    Timestamp(Timestamp),
    Integer(i32),
}

/// The base query that lists all datasets, ready for `AND` clauses.
pub const LIST_DATASETS_BASE: &'static str = "SELECT dataset_id, dataset_name, manager_id, dataset_compression::text AS dataset_compression, dataset_format::text AS dataset_format, dataset_classification::text AS dataset_classification, dataset_schema, dataset_desc, created_at, updated_at FROM datasets WHERE TRUE";

/// The base query that lists the partitions of the dataset in slot `$1`.
pub const LIST_PARTITIONS_BASE: &'static str = "SELECT partition_id, partition_name, partition_url, partition_size, dataset_id, created_at, updated_at FROM partitions WHERE dataset_id = $1";

/// A piece of query text: literal text without `$`, or a numbered placeholder.
pub enum Piece {
    Text(Seq<char>),
    Slot(int),
}

pub open spec fn slot_digit(k: int) -> char {
    if k == 1 {
        '1'
    } else if k == 2 {
        '2'
    } else if k == 3 {
        '3'
    } else if k == 4 {
        '4'
    } else {
        '5'
    }
}

/// The text of a piece, with every slot moved down by `down`.
pub open spec fn piece_text(p: Piece, down: int) -> Seq<char> {
    match p {
        Piece::Text(t) => t,
        Piece::Slot(k) => seq!['$', slot_digit(k - down)],
    }
}

pub open spec fn render(ps: Seq<Piece>, down: int) -> Seq<char>
    decreases ps.len(),
{
    if ps.len() == 0 {
        Seq::empty()
    } else {
        piece_text(ps[0], down) + render(ps.drop_first(), down)
    }
}

pub open spec fn no_dollar(t: Seq<char>) -> bool {
    forall|i: int| 0 <= i < t.len() ==> t[i] != '$'
}

/// Text pieces hold no `$` and do not start with a digit, and slots are numbered from 2 to 5.
pub open spec fn pieces_ok(ps: Seq<Piece>) -> bool {
    forall|i: int|
        0 <= i < ps.len() ==> match #[trigger] ps[i] {
            Piece::Text(t) => no_dollar(t) && (t.len() == 0 || !is_ascii_digit(t[0])),
            Piece::Slot(k) => 2 <= k <= 5,
        }
}

/// The slot that a `$` followed by this digit names, where it is moved down.
pub open spec fn shiftable(c: char) -> bool {
    c == '2' || c == '3' || c == '4' || c == '5'
}

pub open spec fn shifted_digit(c: char) -> char {
    if c == '2' {
        '1'
    } else if c == '3' {
        '2'
    } else if c == '4' {
        '3'
    } else {
        '4'
    }
}

/// Every `$2` to `$5` becomes `$1` to `$4`; all else is kept.
pub open spec fn shift_placeholders(s: Seq<char>) -> Seq<char>
    decreases s.len(),
{
    if s.len() < 2 {
        s
    } else if s[0] == '$' && shiftable(s[1]) {
        seq!['$', shifted_digit(s[1])] + shift_placeholders(s.subrange(2, s.len() as int))
    } else {
        seq![s[0]] + shift_placeholders(s.drop_first())
    }
}

pub open spec fn is_high_digit(c: char) -> bool {
    c == '6' || c == '7' || c == '8' || c == '9'
}

pub open spec fn is_ascii_digit(c: char) -> bool {
    '0' <= c && c <= '9'
}

/// At `i` the text names a slot the shift cannot handle: `$6` to `$9`, or a slot of two or more
/// digits.
pub open spec fn high_slot_at(s: Seq<char>, i: int) -> bool {
    &&& 0 <= i < s.len() - 1
    &&& s[i] == '$'
    &&& (is_high_digit(s[i + 1]) || (is_ascii_digit(s[i + 1]) && i + 2 < s.len() && is_ascii_digit(
        s[i + 2],
    )))
}

/// The text names a slot of `$6` or above, which the shift cannot handle.
pub open spec fn has_high_slot(s: Seq<char>) -> bool {
    exists|i: int| #[trigger] high_slot_at(s, i)
}

proof fn lemma_render_push(ps: Seq<Piece>, p: Piece, down: int)
    ensures
        render(ps.push(p), down) == render(ps, down) + piece_text(p, down),
    decreases ps.len(),
{
    if ps.len() == 0 {
        let q = ps.push(p);
        assert(q.drop_first() =~= Seq::<Piece>::empty());
        assert(q[0] == p);
        assert(render(q.drop_first(), down) == Seq::<char>::empty());
        assert(render(q, down) =~= piece_text(p, down));
        assert(render(ps, down) == Seq::<char>::empty());
        assert(render(ps, down) + piece_text(p, down) =~= piece_text(p, down));
    } else {
        assert(ps.push(p).drop_first() =~= ps.drop_first().push(p));
        assert(ps.push(p)[0] == ps[0]);
        lemma_render_push(ps.drop_first(), p, down);
        assert(render(ps.push(p), down) =~= render(ps, down) + piece_text(p, down));
    }
}

proof fn lemma_shift_no_dollar(t: Seq<char>, rest: Seq<char>)
    requires
        no_dollar(t),
    ensures
        shift_placeholders(t + rest) == t + shift_placeholders(rest),
    decreases t.len(),
{
    if t.len() == 0 {
        assert(t + rest =~= rest);
    } else {
        let s = t + rest;
        if s.len() >= 2 {
            assert(s[0] == t[0]);
            assert(s.drop_first() =~= t.drop_first() + rest);
        }
        lemma_shift_no_dollar(t.drop_first(), rest);
        if s.len() < 2 {
            assert(rest.len() == 0);
            assert(t.drop_first() + rest =~= t.drop_first());
            assert(shift_placeholders(t.drop_first() + rest) =~= t.drop_first());
            assert(t + shift_placeholders(rest) =~= s);
        } else {
            assert(seq![t[0]] + (t.drop_first() + shift_placeholders(rest)) =~= t
                + shift_placeholders(rest));
        }
    }
}

proof fn lemma_no_high_concat(a: Seq<char>, b: Seq<char>)
    requires
        !has_high_slot(a),
        !has_high_slot(b),
        a.len() == 0 || a.last() != '$',
        !(a.len() >= 2 && a[a.len() - 2] == '$' && is_ascii_digit(a.last()) && b.len() > 0
            && is_ascii_digit(b[0])),
    ensures
        !has_high_slot(a + b),
{
    let s = a + b;
    if has_high_slot(s) {
        let i = choose|i: int| #[trigger] high_slot_at(s, i);
        if i + 2 < a.len() {
            assert(high_slot_at(a, i));
        } else if i + 2 == a.len() {
            assert(a[a.len() - 2] == '$');
            if is_high_digit(s[i + 1]) {
                assert(high_slot_at(a, i));
            } else {
                assert(s[i + 2] == b[0]);
                assert(a.last() == a[a.len() - 1]);
            }
        } else if i < a.len() {
            assert(a.last() == a[a.len() - 1]);
        } else {
            assert(high_slot_at(b, i - a.len()));
        }
    }
}

/// The partition form of well-made pieces moves down, slot by slot, to their dataset form, and
/// names no slot above `$5`.
proof fn lemma_render_shift(ps: Seq<Piece>)
    requires
        pieces_ok(ps),
    ensures
        shift_placeholders(render(ps, 0)) == render(ps, 1),
        !has_high_slot(render(ps, 0)),
        render(ps, 0).len() == 0 || render(ps, 0).last() != '$',
        render(ps, 0).len() == 0 || !is_ascii_digit(render(ps, 0)[0]),
    decreases ps.len(),
{
    if ps.len() > 0 {
        let rest = ps.drop_first();
        assert(pieces_ok(rest)) by {
            assert forall|i: int| 0 <= i < rest.len() implies match #[trigger] rest[i] {
                Piece::Text(t) => no_dollar(t) && (t.len() == 0 || !is_ascii_digit(t[0])),
                Piece::Slot(k) => 2 <= k <= 5,
            } by {
                assert(rest[i] == ps[i + 1]);
            }
        }
        lemma_render_shift(rest);
        let r0 = render(rest, 0);
        assert(pieces_ok(ps) ==> match ps[0] {
            Piece::Text(t) => no_dollar(t) && (t.len() == 0 || !is_ascii_digit(t[0])),
            Piece::Slot(k) => 2 <= k <= 5,
        });
        match ps[0] {
            Piece::Text(t) => {
                lemma_shift_no_dollar(t, r0);
                assert(!has_high_slot(t)) by {
                    if has_high_slot(t) {
                        let i = choose|i: int| #[trigger] high_slot_at(t, i);
                        assert(t[i] == '$');
                    }
                }
                if t.len() > 0 {
                    assert(t.last() == t[t.len() - 1]);
                }
                if t.len() >= 2 {
                    assert(t[t.len() - 2] != '$');
                }
                lemma_no_high_concat(t, r0);
                if t.len() > 0 {
                    assert((t + r0)[0] == t[0]);
                } else {
                    assert(t + r0 =~= r0);
                }
                if r0.len() == 0 {
                    assert(t + r0 =~= t);
                } else {
                    assert((t + r0).last() == r0.last());
                }
            },
            Piece::Slot(k) => {
                let st = seq!['$', slot_digit(k)];
                let s = st + r0;
                assert(s[0] == '$' && s[1] == slot_digit(k));
                assert(s.subrange(2, s.len() as int) =~= r0);
                assert(shiftable(slot_digit(k)));
                assert(shifted_digit(slot_digit(k)) == slot_digit(k - 1));
                assert(!has_high_slot(st)) by {
                    if has_high_slot(st) {
                        let i = choose|i: int| #[trigger] high_slot_at(st, i);
                        assert(i == 0);
                    }
                }
                assert(st.last() == slot_digit(k));
                lemma_no_high_concat(st, r0);
                if r0.len() == 0 {
                    assert(s =~= st);
                } else {
                    assert(s.last() == r0.last());
                }
            },
        }
    }
}


/// Moves every placeholder `$2` to `$5` down by one, for the dataset form of a query. Text that
/// names `$6` to `$9`, or a slot of two digits or more, is outside what the shift handles.
pub fn dec_placeholders(v: &str) -> (r: String)
    requires
        !has_high_slot(v@),
    ensures
        r@ == shift_placeholders(v@),
{
    let n = v.unicode_len();
    let mut out = String::new();
    let mut i: usize = 0;
    assert(v@.subrange(0, n as int) =~= v@);
    assert(out@ + shift_placeholders(v@) =~= shift_placeholders(v@));
    while i < n
        invariant
            n == v@.len(),
            i <= n,
            out@ + shift_placeholders(v@.subrange(i as int, n as int)) == shift_placeholders(v@),
        decreases n - i,
    {
        let rest = Ghost(v@.subrange(i as int, n as int));
        let c = v.get_char(i);
        if n - i >= 2 && c == '$' {
            let d = v.get_char(i + 1);
            if d == '2' || d == '3' || d == '4' || d == '5' {
                let e = if d == '2' {
                    '1'
                } else if d == '3' {
                    '2'
                } else if d == '4' {
                    '3'
                } else {
                    '4'
                };
                push_char(&mut out, '$');
                push_char(&mut out, e);
                assert(rest@.subrange(2, rest@.len() as int) =~= v@.subrange(i + 2, n as int));
                i = i + 2;
                continue;
            }
        }
        push_char(&mut out, c);
        proof {
            assert(rest@.drop_first() =~= v@.subrange(i + 1, n as int));
            if rest@.len() < 2 {
                assert(v@.subrange(i + 1, n as int) =~= Seq::<char>::empty());
            }
        }
        i = i + 1;
    }
    assert(v@.subrange(n as int, n as int) =~= Seq::<char>::empty());
    assert(out@ + Seq::<char>::empty() =~= out@);
    out
}

pub open spec fn base_text(target: Target) -> Seq<char> {
    match target {
        Target::Dataset => LIST_DATASETS_BASE@,
        Target::Partition => LIST_PARTITIONS_BASE@,
    }
}

/// The full query: the target's base, the clause (moved down for datasets) and a `;`.
pub open spec fn appended_query(target: Target, append: Seq<char>) -> Seq<char> {
    match target {
        Target::Dataset => base_text(target) + " "@ + shift_placeholders(append) + ";"@,
        Target::Partition => base_text(target) + " "@ + append + ";"@,
    }
}

/// Appends a partition-form clause to the target's base query.
pub fn query_append(target: Target, append: &str) -> (r: String)
    requires
        !has_high_slot(append@),
    ensures
        r@ == appended_query(target, append@),
{
    let mut out = match target {
        Target::Dataset => owned(LIST_DATASETS_BASE),
        Target::Partition => owned(LIST_PARTITIONS_BASE),
    };
    push_all(&mut out, " ");
    match target {
        Target::Dataset => {
            let shifted = dec_placeholders(append);
            push_all(&mut out, shifted.as_str());
        },
        Target::Partition => {
            push_all(&mut out, append);
        },
    }
    push_all(&mut out, ";");
    out
}

pub open spec fn bound_pieces(p: RangeParams) -> Seq<Piece> {
    if p.start is Some && p.end is Some {
        seq![
            Piece::Text("AND created_at BETWEEN "@),
            Piece::Slot(2),
            Piece::Text("::TIMESTAMPTZ AND "@),
            Piece::Slot(3),
            Piece::Text("::TIMESTAMPTZ "@),
        ]
    } else if p.start is Some {
        seq![Piece::Text("AND created_at >= "@), Piece::Slot(2), Piece::Text("::TIMESTAMPTZ "@)]
    } else if p.end is Some {
        seq![Piece::Text("AND created_at <= "@), Piece::Slot(2), Piece::Text("::TIMESTAMPTZ "@)]
    } else {
        Seq::empty()
    }
}

pub open spec fn n_bounds(p: RangeParams) -> int {
    (if p.start is Some { 1int } else { 0 }) + (if p.end is Some { 1int } else { 0 })
}

/// The partition form of the clause: one `AND` clause per time bound, the order, then one
/// `OFFSET` and one `LIMIT` clause per pagination bound, with slots numbered from `$2` in that
/// order.
pub open spec fn clause_pieces(p: RangeParams) -> Seq<Piece> {
    let nb = n_bounds(p);
    let no = if p.offset is Some { 1int } else { 0 };
    bound_pieces(p) + seq![Piece::Text("ORDER BY created_at ASC"@)] + (if p.offset is Some {
        seq![Piece::Text(" OFFSET "@), Piece::Slot(2 + nb), Piece::Text("::INTEGER"@)]
    } else {
        Seq::empty()
    }) + (if p.count is Some {
        seq![Piece::Text(" LIMIT "@), Piece::Slot(2 + nb + no), Piece::Text("::INTEGER"@)]
    } else {
        Seq::empty()
    })
}

/// The values bound to the clause's slots, in slot order: start, end, offset, count.
pub open spec fn bind_values(p: RangeParams) -> Seq<BindValue> {
    (match p.start {
        Some(t) => seq![BindValue::Timestamp(t)],
        None => Seq::empty(),
    }) + (match p.end {
        Some(t) => seq![BindValue::Timestamp(t)],
        None => Seq::empty(),
    }) + (match p.offset {
        Some(o) => seq![BindValue::Integer(o)],
        None => Seq::empty(),
    }) + (match p.count {
        Some(c) => seq![BindValue::Integer(c)],
        None => Seq::empty(),
    })
}

/// The query text of a range query over the target.
pub open spec fn range_query_text(target: Target, p: RangeParams) -> Seq<char> {
    appended_query(target, render(clause_pieces(p), 0))
}

pub open spec fn params_or_default(params: Option<RangeParams>) -> RangeParams {
    match params {
        Some(p) => p,
        None => RangeParams { start: None, end: None, offset: None, count: None },
    }
}

proof fn lemma_clause_pieces_ok(p: RangeParams)
    ensures
        pieces_ok(clause_pieces(p)),
{
    reveal_strlit("AND created_at BETWEEN ");
    reveal_strlit("::TIMESTAMPTZ AND ");
    reveal_strlit("::TIMESTAMPTZ ");
    reveal_strlit("AND created_at >= ");
    reveal_strlit("AND created_at <= ");
    reveal_strlit("ORDER BY created_at ASC");
    reveal_strlit(" OFFSET ");
    reveal_strlit(" LIMIT ");
    reveal_strlit("::INTEGER");
    assert(no_dollar("AND created_at BETWEEN "@));
    assert(no_dollar("::TIMESTAMPTZ AND "@));
    assert(no_dollar("::TIMESTAMPTZ "@));
    assert(no_dollar("AND created_at >= "@));
    assert(no_dollar("AND created_at <= "@));
    assert(no_dollar("ORDER BY created_at ASC"@));
    assert(no_dollar(" OFFSET "@));
    assert(no_dollar(" LIMIT "@));
    assert(no_dollar("::INTEGER"@));
    assert(!is_ascii_digit("AND created_at BETWEEN "@[0]));
    assert(!is_ascii_digit("::TIMESTAMPTZ AND "@[0]));
    assert(!is_ascii_digit("::TIMESTAMPTZ "@[0]));
    assert(!is_ascii_digit("AND created_at >= "@[0]));
    assert(!is_ascii_digit("AND created_at <= "@[0]));
    assert(!is_ascii_digit("ORDER BY created_at ASC"@[0]));
    assert(!is_ascii_digit(" OFFSET "@[0]));
    assert(!is_ascii_digit(" LIMIT "@[0]));
    assert(!is_ascii_digit("::INTEGER"@[0]));
}

fn slot_char(k: u8) -> (c: char)
    requires
        2 <= k <= 5,
    ensures
        c == slot_digit(k as int),
{
    if k == 2 {
        '2'
    } else if k == 3 {
        '3'
    } else if k == 4 {
        '4'
    } else {
        '5'
    }
}

fn push_text(out: &mut String, t: &'static str, Ghost(ps): Ghost<Seq<Piece>>)
    requires
        old(out)@ == render(ps, 0),
    ensures
        final(out)@ == render(ps.push(Piece::Text(t@)), 0),
{
    push_all(out, t);
    proof {
        lemma_render_push(ps, Piece::Text(t@), 0);
    }
}

fn push_slot(out: &mut String, k: u8, Ghost(ps): Ghost<Seq<Piece>>)
    requires
        old(out)@ == render(ps, 0),
        2 <= k <= 5,
    ensures
        final(out)@ == render(ps.push(Piece::Slot(k as int)), 0),
{
    push_char(out, '$');
    let c = slot_char(k);
    push_char(out, c);
    proof {
        lemma_render_push(ps, Piece::Slot(k as int), 0);
        assert(final(out)@ =~= render(ps, 0) + seq!['$', slot_digit(k as int)]);
    }
}

/// The partition form of the clause for `p`.
fn clause_text(p: &RangeParams) -> (r: String)
    ensures
        r@ == render(clause_pieces(*p), 0),
{
    let mut out = String::new();
    let ghost mut ps: Seq<Piece> = Seq::empty();
    let mut next: u8 = 2;
    if p.start.is_some() && p.end.is_some() {
        push_text(&mut out, "AND created_at BETWEEN ", Ghost(ps));
        proof { ps = ps.push(Piece::Text("AND created_at BETWEEN "@)); }
        push_slot(&mut out, 2, Ghost(ps));
        proof { ps = ps.push(Piece::Slot(2)); }
        push_text(&mut out, "::TIMESTAMPTZ AND ", Ghost(ps));
        proof { ps = ps.push(Piece::Text("::TIMESTAMPTZ AND "@)); }
        push_slot(&mut out, 3, Ghost(ps));
        proof { ps = ps.push(Piece::Slot(3)); }
        push_text(&mut out, "::TIMESTAMPTZ ", Ghost(ps));
        proof { ps = ps.push(Piece::Text("::TIMESTAMPTZ "@)); }
        next = 4;
    } else if p.start.is_some() {
        push_text(&mut out, "AND created_at >= ", Ghost(ps));
        proof { ps = ps.push(Piece::Text("AND created_at >= "@)); }
        push_slot(&mut out, 2, Ghost(ps));
        proof { ps = ps.push(Piece::Slot(2)); }
        push_text(&mut out, "::TIMESTAMPTZ ", Ghost(ps));
        proof { ps = ps.push(Piece::Text("::TIMESTAMPTZ "@)); }
        next = 3;
    } else if p.end.is_some() {
        push_text(&mut out, "AND created_at <= ", Ghost(ps));
        proof { ps = ps.push(Piece::Text("AND created_at <= "@)); }
        push_slot(&mut out, 2, Ghost(ps));
        proof { ps = ps.push(Piece::Slot(2)); }
        push_text(&mut out, "::TIMESTAMPTZ ", Ghost(ps));
        proof { ps = ps.push(Piece::Text("::TIMESTAMPTZ "@)); }
        next = 3;
    }
    assert(ps =~= bound_pieces(*p));
    assert(next == 2 + n_bounds(*p));
    let ghost bounds = ps;
    push_text(&mut out, "ORDER BY created_at ASC", Ghost(ps));
    proof { ps = ps.push(Piece::Text("ORDER BY created_at ASC"@)); }
    let ghost ordered = ps;
    if p.offset.is_some() {
        push_text(&mut out, " OFFSET ", Ghost(ps));
        proof { ps = ps.push(Piece::Text(" OFFSET "@)); }
        push_slot(&mut out, next, Ghost(ps));
        proof { ps = ps.push(Piece::Slot(next as int)); }
        push_text(&mut out, "::INTEGER", Ghost(ps));
        proof { ps = ps.push(Piece::Text("::INTEGER"@)); }
        next = next + 1;
    }
    let ghost paged = ps;
    if p.count.is_some() {
        push_text(&mut out, " LIMIT ", Ghost(ps));
        proof { ps = ps.push(Piece::Text(" LIMIT "@)); }
        push_slot(&mut out, next, Ghost(ps));
        proof { ps = ps.push(Piece::Slot(next as int)); }
        push_text(&mut out, "::INTEGER", Ghost(ps));
        proof { ps = ps.push(Piece::Text("::INTEGER"@)); }
    }
    assert(ps =~= clause_pieces(*p));
    out
}

/// The bind values in slot order.
fn binds_of(p: &RangeParams) -> (r: Vec<BindValue>)
    ensures
        r@ == bind_values(*p),
{
    let mut v: Vec<BindValue> = Vec::new();
    if let Some(t) = p.start {
        v.push(BindValue::Timestamp(t));
    }
    if let Some(t) = p.end {
        v.push(BindValue::Timestamp(t));
    }
    if let Some(o) = p.offset {
        v.push(BindValue::Integer(o));
    }
    if let Some(c) = p.count {
        v.push(BindValue::Integer(c));
    }
    assert(v@ =~= bind_values(*p));
    v
}

/// The query text and bind values of a range query over the target; no parameters means all
/// rows, sorted by `created_at` ascending.
pub fn create(target: Target, params: Option<RangeParams>) -> (r: (String, Vec<BindValue>))
    ensures
        r.0@ == range_query_text(target, params_or_default(params)),
        r.1@ == bind_values(params_or_default(params)),
{
    let p = match params {
        Some(p) => p,
        None => RangeParams { start: None, end: None, offset: None, count: None },
    };
    let clause = clause_text(&p);
    proof {
        lemma_clause_pieces_ok(p);
        lemma_render_shift(clause_pieces(p));
    }
    let q = query_append(target, clause.as_str());
    (q, binds_of(&p))
}

/// The dataset form of a range query is the partition form with every slot moved down by one.
pub proof fn lemma_dataset_form(p: RangeParams)
    ensures
        shift_placeholders(render(clause_pieces(p), 0)) == render(clause_pieces(p), 1),
        !has_high_slot(render(clause_pieces(p), 0)),
{
    lemma_clause_pieces_ok(p);
    lemma_render_shift(clause_pieces(p));
}

} // verus!
