//! The journal of applied orders, each once by its hash.
use crate::ledger_store;
use crate::lines;
use crate::lines::NumberedLine;
use crate::text;
use crate::wire::{Digest, PaymentOrder};
use vstd::prelude::*;

verus! {

/// Name of the order journal.
pub const ORDERS_FILE: &'static str = "orders.jsonl";

/// Path of the order journal below `data_dir`.
pub fn orders_path(data_dir: &str) -> (r: String)
    ensures
        r@ == text::joined_path(ledger_store::spec_ledger_dir(data_dir@), ORDERS_FILE@),
{
    text::join_path(ledger_store::ledger_dir(data_dir).as_str(), ORDERS_FILE)
}

/// Order `i` has this hash.
pub open spec fn hashed_at(orders: Seq<PaymentOrder>, hash: Digest, i: int) -> bool {
    0 <= i < orders.len() && orders[i].hash == hash
}

/// Some order has this hash.
pub open spec fn holds_hash(orders: Seq<PaymentOrder>, hash: Digest) -> bool {
    exists|i: int| #[trigger] hashed_at(orders, hash, i)
}

/// The journal with an order, unless its hash is there already.
pub open spec fn journaled(orders: Seq<PaymentOrder>, order: PaymentOrder) -> Seq<PaymentOrder> {
    if holds_hash(orders, order.hash) {
        orders
    } else {
        orders.push(order)
    }
}

/// No two orders have the same hash.
pub open spec fn distinct_hashes(orders: Seq<PaymentOrder>) -> bool {
    forall|i: int, j: int|
        0 <= i < j < orders.len() ==> (#[trigger] orders[i]).hash != (#[trigger] orders[j]).hash
}

/// Whether some order has this hash.
pub fn has_hash(orders: &Vec<PaymentOrder>, hash: &Digest) -> (r: bool)
    ensures
        r == holds_hash(orders@, *hash),
{
    let mut i: usize = 0;
    while i < orders.len()
        invariant
            i <= orders@.len(),
            forall|j: int| 0 <= j < i ==> !#[trigger] hashed_at(orders@, *hash, j),
        decreases orders@.len() - i,
    {
        if text::same32(&orders[i].hash, hash) {
            assert(hashed_at(orders@, *hash, i as int));
            return true;
        }
        i = i + 1;
    }
    proof {
        assert forall|j: int| !#[trigger] hashed_at(orders@, *hash, j) by {}
    }
    false
}

/// Append an order to the journal and say whether its line is to be written.
pub fn append(orders: &mut Vec<PaymentOrder>, order: &PaymentOrder) -> (r: bool)
    ensures
        final(orders)@ == journaled(old(orders)@, *order),
        r == !holds_hash(old(orders)@, order.hash),
{
    if has_hash(orders, &order.hash) {
        return false;
    }
    orders.push(order.copied());
    true
}

/// The lines of a stored journal that hold something, with their numbers.
pub fn journal_lines(data: &str) -> (r: Vec<NumberedLine>)
    ensures
        lines::hold(r@, lines::numbered(lines::pieces(data@, '\n'))),
{
    let all: Vec<String> = lines::split(data, '\n');
    assert(text::views(all@) =~= lines::pieces(data@, '\n'));
    lines::number_lines(&all)
}

/// The orders among decoded lines; lines that hold no order are passed over.
pub open spec fn readable(decoded: Seq<Option<PaymentOrder>>) -> Seq<PaymentOrder>
    decreases decoded.len(),
{
    if decoded.len() == 0 {
        Seq::empty()
    } else {
        let before = readable(decoded.drop_last());
        match decoded.last() {
            Some(order) => before.push(order),
            None => before,
        }
    }
}

/// The orders of a stored journal, in file order. `decoded` holds what each of
/// its lines was decoded to, none where it is malformed.
pub fn load_all(decoded: &Vec<Option<PaymentOrder>>) -> (r: Vec<PaymentOrder>)
    ensures
        r@ == readable(decoded@),
{
    let mut r: Vec<PaymentOrder> = Vec::new();
    let mut i: usize = 0;
    assert(decoded@.take(0) =~= Seq::<Option<PaymentOrder>>::empty());
    while i < decoded.len()
        invariant
            i <= decoded@.len(),
            r@ == readable(decoded@.take(i as int)),
        decreases decoded@.len() - i,
    {
        proof {
            assert(decoded@.take(i + 1).drop_last() =~= decoded@.take(i as int));
            assert(decoded@.take(i + 1).last() == decoded@[i as int]);
        }
        match &decoded[i] {
            Some(order) => r.push(order.copied()),
            None => {},
        }
        i = i + 1;
    }
    assert(decoded@.take(i as int) =~= decoded@);
    r
}

/// The first order of each hash, in order.
pub open spec fn deduped(orders: Seq<PaymentOrder>) -> Seq<PaymentOrder>
    decreases orders.len(),
{
    if orders.len() == 0 {
        Seq::empty()
    } else {
        journaled(deduped(orders.drop_last()), orders.last())
    }
}

/// Keep the first order of each hash.
pub fn dedup_orders(orders: &Vec<PaymentOrder>) -> (r: Vec<PaymentOrder>)
    ensures
        r@ == deduped(orders@),
{
    let mut r: Vec<PaymentOrder> = Vec::new();
    let mut i: usize = 0;
    assert(orders@.take(0) =~= Seq::<PaymentOrder>::empty());
    while i < orders.len()
        invariant
            i <= orders@.len(),
            r@ == deduped(orders@.take(i as int)),
        decreases orders@.len() - i,
    {
        proof {
            assert(orders@.take(i + 1).drop_last() =~= orders@.take(i as int));
            assert(orders@.take(i + 1).last() == orders@[i as int]);
        }
        append(&mut r, &orders[i]);
        i = i + 1;
    }
    assert(orders@.take(i as int) =~= orders@);
    r
}

/// Journaling an order again changes nothing, and a journal without duplicates
/// stays without.
pub proof fn law_journaling_is_idempotent(orders: Seq<PaymentOrder>, order: PaymentOrder)
    ensures
        journaled(journaled(orders, order), order) == journaled(orders, order),
        holds_hash(journaled(orders, order), order.hash),
        distinct_hashes(orders) ==> distinct_hashes(journaled(orders, order)),
{
    if !holds_hash(orders, order.hash) {
        let longer = orders.push(order);
        assert(hashed_at(longer, order.hash, orders.len() as int));
        if distinct_hashes(orders) {
            assert forall|i: int, j: int| 0 <= i < j < longer.len() implies (
            #[trigger] longer[i]).hash != (#[trigger] longer[j]).hash by {
                if j == orders.len() {
                    assert(!hashed_at(orders, order.hash, i));
                }
            }
        }
    }
}

/// Removing duplicates leaves no two orders of the same hash, loses no hash and
/// adds none, and doing it again changes nothing.
pub proof fn law_dedup_keeps_every_hash_once(orders: Seq<PaymentOrder>, hash: Digest)
    ensures
        distinct_hashes(deduped(orders)),
        holds_hash(deduped(orders), hash) <==> holds_hash(orders, hash),
        distinct_hashes(orders) ==> deduped(orders) == orders,
    decreases orders.len(),
{
    if orders.len() > 0 {
        let init = orders.drop_last();
        let last = orders.last();
        law_dedup_keeps_every_hash_once(init, hash);
        law_dedup_keeps_every_hash_once(init, last.hash);
        law_journaling_is_idempotent(deduped(init), last);
        let kept = deduped(orders);
        if holds_hash(kept, hash) {
            let i = choose|i: int| #[trigger] hashed_at(kept, hash, i);
            if i < deduped(init).len() {
                assert(hashed_at(deduped(init), hash, i));
                let k = choose|k: int| #[trigger] hashed_at(init, hash, k);
                assert(hashed_at(orders, hash, k));
            } else {
                assert(hashed_at(orders, hash, orders.len() - 1));
            }
        }
        if holds_hash(orders, hash) {
            let i = choose|i: int| #[trigger] hashed_at(orders, hash, i);
            if i < init.len() {
                assert(hashed_at(init, hash, i));
                let k = choose|k: int| #[trigger] hashed_at(deduped(init), hash, k);
                assert(hashed_at(kept, hash, k));
            }
        }
        if distinct_hashes(orders) {
            assert(distinct_hashes(init)) by {
                assert forall|i: int, j: int| 0 <= i < j < init.len() implies (
                #[trigger] init[i]).hash != (#[trigger] init[j]).hash by {
                    assert(init[i] == orders[i] && init[j] == orders[j]);
                }
            }
            if holds_hash(init, last.hash) {
                let i = choose|i: int| #[trigger] hashed_at(init, last.hash, i);
                assert(orders[i].hash != orders[orders.len() - 1].hash);
            }
            assert(kept =~= orders);
        }
    }
}

/// An operator's order source, taken apart.
#[derive(Debug)]
pub enum OrdersText {
    /// There is nothing in it.
    Empty,
    /// It is a JSON array.
    Array(String),
    /// It holds one order per line.
    PerLine(Vec<NumberedLine>),
}

/// The source is taken apart into this.
pub open spec fn parted(source: Seq<char>, parts: OrdersText) -> bool {
    let body = lines::trimmed(source);
    if body.len() == 0 {
        parts is Empty
    } else if body[0] == '[' {
        parts matches OrdersText::Array(array) && array@ == body
    } else {
        parts matches OrdersText::PerLine(got) && lines::hold(
            got@,
            lines::numbered(lines::trimmed_pieces(body, '\n')),
        )
    }
}

/// Take an order source apart: a JSON array, or one order per line with blank
/// lines passed over.
pub fn parse_orders_text(source: &str) -> (r: OrdersText)
    ensures
        parted(source@, r),
{
    let body: String = lines::trim(source);
    if body.as_str().unicode_len() == 0 {
        return OrdersText::Empty;
    }
    if body.as_str().get_char(0) == '[' {
        return OrdersText::Array(body);
    }
    let all: Vec<String> = lines::split_trimmed(body.as_str(), '\n');
    assert(text::views(all@) =~= lines::trimmed_pieces(body@, '\n'));
    OrdersText::PerLine(lines::number_lines(&all))
}

/// What is said of a line that holds no order.
pub fn bad_line_message(number: usize) -> (r: String)
    ensures
        r@ == "invalid order JSON on line "@ + text::decimal(number as nat),
{
    let mut r: String = "invalid order JSON on line ".to_owned();
    r.append(text::u64_text(number as u64).as_str());
    r
}

/// What is said of an array that holds something other than orders.
pub const BAD_ARRAY: &'static str = "invalid orders JSON array";

/// All the orders of decoded lines, or none of them where a line holds no
/// order.
pub open spec fn collected(decoded: Seq<Option<PaymentOrder>>) -> Option<Seq<PaymentOrder>> {
    if forall|i: int| 0 <= i < decoded.len() ==> (#[trigger] decoded[i]) is Some {
        Some(decoded.map_values(|one: Option<PaymentOrder>| one->0))
    } else {
        None
    }
}

/// Line `i` is the first that holds no order.
pub open spec fn first_bad(decoded: Seq<Option<PaymentOrder>>, i: int) -> bool {
    &&& 0 <= i < decoded.len()
    &&& decoded[i] is None
    &&& forall|j: int| 0 <= j < i ==> (#[trigger] decoded[j]) is Some
}

/// The orders of a source with one order per line. `decoded` holds what each
/// of the lines was decoded to, none where it is malformed: one such line
/// rejects the whole source, and the first of them is named.
pub fn collect_lines(lines: &Vec<NumberedLine>, decoded: &Vec<Option<PaymentOrder>>) -> (r: Result<
    Vec<PaymentOrder>,
    String,
>)
    requires
        lines@.len() == decoded@.len(),
    ensures
        match r {
            Ok(orders) => collected(decoded@) == Some(orders@),
            Err(message) => exists|i: int|
                #[trigger] first_bad(decoded@, i) && message@ == "invalid order JSON on line "@
                    + text::decimal(lines@[i].number as nat),
        },
        r is Ok <==> collected(decoded@) is Some,
{
    let mut r: Vec<PaymentOrder> = Vec::new();
    let mut i: usize = 0;
    while i < decoded.len()
        invariant
            i <= decoded@.len() == lines@.len(),
            r@.len() == i,
            forall|j: int|
                0 <= j < i ==> (#[trigger] decoded@[j]) is Some && decoded@[j]->0 == r@[j],
        decreases decoded@.len() - i,
    {
        match &decoded[i] {
            Some(order) => r.push(order.copied()),
            None => {
                assert(first_bad(decoded@, i as int));
                return Err(bad_line_message(lines[i].number));
            },
        }
        i = i + 1;
    }
    assert(decoded@.map_values(|one: Option<PaymentOrder>| one->0) =~= r@);
    Ok(r)
}

/// The orders of a source that is an array. `decoded` holds what it was
/// decoded to, none where it is malformed.
pub fn collect_array(decoded: Option<Vec<PaymentOrder>>) -> (r: Result<Vec<PaymentOrder>, String>)
    ensures
        match decoded {
            Some(orders) => r matches Ok(got) && got@ == orders@,
            None => r matches Err(message) && message@ == BAD_ARRAY@,
        },
{
    match decoded {
        Some(orders) => Ok(orders),
        None => Err(BAD_ARRAY.to_owned()),
    }
}

/// The orders of a source under a decoder of lines and one of arrays: none of
/// them where a part of the source cannot be decoded.
pub open spec fn orders_of(
    source: Seq<char>,
    line: spec_fn(Seq<char>) -> Option<PaymentOrder>,
    array: spec_fn(Seq<char>) -> Option<Seq<PaymentOrder>>,
) -> Option<Seq<PaymentOrder>> {
    let body = lines::trimmed(source);
    if body.len() == 0 {
        Some(Seq::empty())
    } else if body[0] == '[' {
        array(body)
    } else {
        collected(lines::held_lines(body).map_values(line))
    }
}

/// The orders of a source that was taken apart, each line decoded by `line` or
/// the whole array by `array`.
pub open spec fn parts_read(
    parts: OrdersText,
    line: spec_fn(Seq<char>) -> Option<PaymentOrder>,
    array: spec_fn(Seq<char>) -> Option<Seq<PaymentOrder>>,
) -> Option<Seq<PaymentOrder>> {
    match parts {
        OrdersText::Empty => Some(Seq::empty()),
        OrdersText::Array(text) => array(text@),
        OrdersText::PerLine(held) => collected(held@.map_values(|one: NumberedLine| line(one.text@))),
    }
}

/// Taking a source apart loses nothing: decoding its parts and collecting them
/// gives the orders of the source.
pub proof fn law_parts_give_the_orders(
    source: Seq<char>,
    parts: OrdersText,
    line: spec_fn(Seq<char>) -> Option<PaymentOrder>,
    array: spec_fn(Seq<char>) -> Option<Seq<PaymentOrder>>,
)
    requires
        parted(source, parts),
    ensures
        parts_read(parts, line, array) == orders_of(source, line, array),
{
    if parts is PerLine {
        let held = parts->PerLine_0@;
        let body = lines::trimmed(source);
        let numbered = lines::numbered(lines::trimmed_pieces(body, '\n'));
        assert forall|i: int| 0 <= i < held.len() implies #[trigger] line(held[i].text@) == line(
            numbered[i].1,
        ) by {}
        assert(held.map_values(|one: NumberedLine| line(one.text@)) =~= lines::held_lines(
            body,
        ).map_values(line));
    }
}

/// The source is an array.
pub open spec fn is_array(source: Seq<char>) -> bool {
    lines::trimmed(source).len() > 0 && lines::trimmed(source)[0] == '['
}

/// Lines of text, joined, are read as the decodings of those that hold
/// something, in their order: blank lines and the white space around a line
/// change nothing.
pub proof fn law_lines_are_read_in_order(
    rows: Seq<Seq<char>>,
    line: spec_fn(Seq<char>) -> Option<PaymentOrder>,
    array: spec_fn(Seq<char>) -> Option<Seq<PaymentOrder>>,
)
    requires
        rows.len() > 0,
        forall|i: int, j: int|
            0 <= i < rows.len() && 0 <= j < rows[i].len() ==> #[trigger] rows[i][j] != '\n',
        !is_array(lines::joined(rows)),
    ensures
        orders_of(lines::joined(rows), line, array) == collected(
            lines::held_rows(rows).map_values(line),
        ),
{
    let source = lines::joined(rows);
    lines::law_joined_rows_come_apart(rows);
    lines::law_trimming_keeps_the_lines(source);
    if lines::trimmed(source).len() == 0 {
        lemma_nothing_holds_no_line(lines::trimmed(source));
        assert(lines::held_rows(rows).map_values(line) =~= Seq::empty());
        assert(collected(Seq::empty()) == Some(Seq::<PaymentOrder>::empty())) by {
            assert(Seq::<Option<PaymentOrder>>::empty().map_values(
                |one: Option<PaymentOrder>| one->0,
            ) =~= Seq::empty());
        }
    }
}

proof fn lemma_nothing_holds_no_line(s: Seq<char>)
    requires
        s.len() == 0,
    ensures
        lines::held_lines(s) == Seq::<Seq<char>>::empty(),
{
    lines::law_trimming_keeps_the_lines(s);
    let one = lines::pieces(s, '\n');
    assert(one =~= seq![Seq::<char>::empty()]);
    assert(lines::trimmed(Seq::<char>::empty()) =~= Seq::<char>::empty());
    assert(one.drop_last() =~= Seq::<Seq<char>>::empty());
    assert(lines::trimmed(one.last()).len() == 0);
    assert(lines::held_rows(one.drop_last()) =~= Seq::<Seq<char>>::empty());
}

/// One order per line and an array of the same orders are read as the same
/// orders.
pub proof fn law_array_and_lines_agree(
    source: Seq<char>,
    rows: Seq<Seq<char>>,
    line: spec_fn(Seq<char>) -> Option<PaymentOrder>,
    array: spec_fn(Seq<char>) -> Option<Seq<PaymentOrder>>,
)
    requires
        is_array(source),
        rows.len() > 0,
        forall|i: int, j: int|
            0 <= i < rows.len() && 0 <= j < rows[i].len() ==> #[trigger] rows[i][j] != '\n',
        !is_array(lines::joined(rows)),
        array(lines::trimmed(source)) == collected(lines::held_rows(rows).map_values(line)),
    ensures
        orders_of(source, line, array) == orders_of(lines::joined(rows), line, array),
{
    law_lines_are_read_in_order(rows, line, array);
}

/// Orders that are written down are read back, whether one per line, with blank
/// lines and white space between them or not, or as an array.
pub proof fn law_written_orders_are_read_back(
    orders: Seq<PaymentOrder>,
    rows: Seq<Seq<char>>,
    source: Seq<char>,
    written: spec_fn(PaymentOrder) -> Seq<char>,
    line: spec_fn(Seq<char>) -> Option<PaymentOrder>,
    array: spec_fn(Seq<char>) -> Option<Seq<PaymentOrder>>,
)
    requires
        forall|i: int|
            0 <= i < orders.len() ==> line(#[trigger] written(orders[i])) == Some(orders[i])
                && written(orders[i])[0] != '[',
        rows.len() > 0,
        forall|i: int, j: int|
            0 <= i < rows.len() && 0 <= j < rows[i].len() ==> #[trigger] rows[i][j] != '\n',
        lines::held_rows(rows) == orders.map_values(written),
        is_array(source),
        array(lines::trimmed(source)) == Some(orders),
    ensures
        orders_of(lines::joined(rows), line, array) == Some(orders),
        orders_of(source, line, array) == Some(orders),
{
    let joined = lines::joined(rows);
    let held = lines::held_rows(rows);
    lines::law_joined_rows_come_apart(rows);
    lines::law_trimming_keeps_the_lines(joined);
    if lines::trimmed(joined).len() > 0 {
        lines::law_first_line_begins_the_text(joined);
        assert(held[0] == written(orders[0]));
    }
    law_lines_are_read_in_order(rows, line, array);
    let decoded = held.map_values(line);
    assert forall|i: int| 0 <= i < decoded.len() implies #[trigger] decoded[i] == Some(
        orders[i],
    ) by {
        assert(held[i] == written(orders[i]));
    }
    assert(decoded.map_values(|one: Option<PaymentOrder>| one->0) =~= orders);
}

/// One line that cannot be decoded rejects the whole source.
pub proof fn law_one_bad_line_rejects_all(
    source: Seq<char>,
    bad: int,
    line: spec_fn(Seq<char>) -> Option<PaymentOrder>,
    array: spec_fn(Seq<char>) -> Option<Seq<PaymentOrder>>,
)
    requires
        !is_array(source),
        0 <= bad < lines::held_lines(source).len(),
        line(lines::held_lines(source)[bad]) is None,
    ensures
        orders_of(source, line, array) is None,
{
    lines::law_trimming_keeps_the_lines(source);
    if lines::trimmed(source).len() == 0 {
        lemma_nothing_holds_no_line(lines::trimmed(source));
    }
    let decoded = lines::held_lines(source).map_values(line);
    assert(decoded[bad] is None);
}

/// An array that cannot be decoded rejects the whole source.
pub proof fn law_bad_array_rejects_all(
    source: Seq<char>,
    line: spec_fn(Seq<char>) -> Option<PaymentOrder>,
    array: spec_fn(Seq<char>) -> Option<Seq<PaymentOrder>>,
)
    requires
        is_array(source),
        array(lines::trimmed(source)) is None,
    ensures
        orders_of(source, line, array) is None,
{
}

/// A source of white space alone holds no orders, and that is no mistake.
pub proof fn law_blank_source_holds_nothing(
    source: Seq<char>,
    line: spec_fn(Seq<char>) -> Option<PaymentOrder>,
    array: spec_fn(Seq<char>) -> Option<Seq<PaymentOrder>>,
)
    requires
        lines::trimmed(source).len() == 0,
    ensures
        orders_of(source, line, array) == Some(Seq::<PaymentOrder>::empty()),
{
}

/// An order is written behind the others exactly where none of them has its hash,
/// and whether it was is told; the others stay.
pub proof fn law_orders_are_journaled_once(
    orders: &mut Vec<PaymentOrder>,
    order: PaymentOrder,
    r: bool,
    i: int,
)
    requires
        call_ensures(append, (orders, &order), r),
    ensures
        r ==> final(orders)@ == old(orders)@.push(order),
        !r ==> final(orders)@ == old(orders)@,
        0 <= i < old(orders)@.len() && old(orders)@[i].hash == order.hash ==> !r,
        !r ==> exists|k: int| #![trigger old(orders)@[k]]
            0 <= k < old(orders)@.len() && old(orders)@[k].hash == order.hash,
{
    let before = old(orders)@;
    if 0 <= i < before.len() && before[i].hash == order.hash {
        assert(hashed_at(before, order.hash, i));
    }
    if !r {
        let k = choose|k: int| #[trigger] hashed_at(before, order.hash, k);
        assert(before[k].hash == order.hash);
    }
}

/// Of several orders with one hash the first is kept. One order more is put behind
/// what is kept of the ones before it, unless its hash is there already.
pub proof fn law_dedup_goes_order_by_order(
    orders: Vec<PaymentOrder>,
    longer: Vec<PaymentOrder>,
    kept: Vec<PaymentOrder>,
    more: Vec<PaymentOrder>,
    i: int,
)
    requires
        call_ensures(dedup_orders, (&orders,), kept),
        call_ensures(dedup_orders, (&longer,), more),
        longer@.len() > 0,
        longer@.drop_last() == orders@,
    ensures
        orders@.len() == 0 ==> kept@.len() == 0 && more@ == seq![longer@.last()],
        more@ == kept@ || more@ == kept@.push(longer@.last()),
        0 <= i < kept@.len() && kept@[i].hash == longer@.last().hash ==> more@ == kept@,
        more@ == kept@ ==> exists|k: int| #![trigger kept@[k]]
            0 <= k < kept@.len() && kept@[k].hash == longer@.last().hash,
{
    let last = longer@.last();
    if 0 <= i < kept@.len() && kept@[i].hash == last.hash {
        assert(hashed_at(kept@, last.hash, i));
    }
    if holds_hash(kept@, last.hash) {
        let k = choose|k: int| #[trigger] hashed_at(kept@, last.hash, k);
        assert(kept@[k].hash == last.hash);
    } else {
        assert(kept@.push(last).len() != kept@.len());
    }
    if orders@.len() == 0 {
        assert(more@ =~= seq![last]);
    }
}

/// Loading takes every order that can be read, in its order, and passes over what
/// cannot.
pub proof fn law_loading_goes_line_by_line(
    decoded: Vec<Option<PaymentOrder>>,
    longer: Vec<Option<PaymentOrder>>,
    r: Vec<PaymentOrder>,
    more: Vec<PaymentOrder>,
)
    requires
        call_ensures(load_all, (&decoded,), r),
        call_ensures(load_all, (&longer,), more),
        longer@.len() > 0,
        longer@.drop_last() == decoded@,
    ensures
        decoded@.len() == 0 ==> r@.len() == 0,
        longer@.last() matches Some(order) ==> more@ == r@.push(order),
        longer@.last() is None ==> more@ == r@,
{
}

/// Lines are taken all or none: where each can be read the orders come out line by
/// line, and otherwise the first that cannot be read is named by its number.
pub proof fn law_lines_are_taken_all_or_none(
    held: Vec<NumberedLine>,
    decoded: Vec<Option<PaymentOrder>>,
    r: Result<Vec<PaymentOrder>, String>,
    i: int,
)
    requires
        call_ensures(collect_lines, (&held, &decoded), r),
        held@.len() == decoded@.len(),
    ensures
        0 <= i < decoded@.len() && decoded@[i] is None ==> r is Err,
        r matches Ok(orders) ==> orders@.len() == decoded@.len() && (0 <= i < decoded@.len()
            ==> decoded@[i] == Some(orders@[i])),
        r matches Err(message) ==> (0 <= i < decoded@.len() && decoded@[i] is None && (forall|
            j: int,
        |
            0 <= j < i ==> (#[trigger] decoded@[j]) is Some) ==> message@
            == "invalid order JSON on line "@ + text::decimal(held@[i].number as nat)),
        r is Err ==> exists|k: int| #![trigger decoded@[k]]
            0 <= k < decoded@.len() && decoded@[k] is None,
{
    if r is Ok {
        if 0 <= i < decoded@.len() {
            assert(decoded@[i] is Some);
            assert(decoded@.map_values(|one: Option<PaymentOrder>| one->0)[i] == decoded@[i]->0);
        }
    } else {
        let k = choose|k: int| #[trigger]
            first_bad(decoded@, k) && r->Err_0@ == "invalid order JSON on line "@ + text::decimal(
                held@[k].number as nat,
            );
        assert(decoded@[k] is None);
        if 0 <= i < decoded@.len() && decoded@[i] is None && (forall|j: int|
            0 <= j < i ==> (#[trigger] decoded@[j]) is Some) {
            assert(!(k < i));
            assert(!(i < k));
        }
    }
}

/// An array of orders is taken as it is or refused as a whole.
pub proof fn law_arrays_are_taken_all_or_none(
    decoded: Option<Vec<PaymentOrder>>,
    r: Result<Vec<PaymentOrder>, String>,
)
    requires
        call_ensures(collect_array, (decoded,), r),
    ensures
        r is Ok <==> decoded is Some,
        decoded matches Some(orders) ==> r->Ok_0@ == orders@,
{
}

/// The journal stands beside the ledger, under its own name.
pub proof fn law_journal_stands_with_the_ledger(data_dir: &str, dir: String, path: String)
    requires
        call_ensures(ledger_store::ledger_dir, (data_dir,), dir),
        call_ensures(orders_path, (data_dir,), path),
    ensures
        path@ == text::joined_path(dir@, "orders.jsonl"@),
{
}

/// A source without anything in it holds no orders; one that begins with a bracket
/// is one array, taken without the white space around it; any other is taken line by
/// line.
pub proof fn law_sources_are_arrays_or_lines(source: &str, body: String, r: OrdersText)
    requires
        call_ensures(parse_orders_text, (source,), r),
        call_ensures(lines::trim, (source,), body),
    ensures
        r is Empty <==> body@.len() == 0,
        r is Array <==> body@.len() > 0 && body@[0] == '[',
        r matches OrdersText::Array(array) ==> array@ == body@,
{
}

} // verus!
