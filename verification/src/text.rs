//! Text and byte helpers: decimal and hexadecimal rendering, comparison and
//! the byte order of strings.
use vstd::prelude::*;

verus! {

/// The decimal digit `d` as a character.
pub open spec fn digit_char(d: nat) -> char {
    (48 + d) as char
}

/// The decimal rendering of `n`, without leading zeros.
pub open spec fn decimal(n: nat) -> Seq<char>
    decreases n,
{
    if n < 10 {
        seq![digit_char(n)]
    } else {
        decimal(n / 10).push(digit_char(n % 10))
    }
}

/// The lowercase hexadecimal digit of value `d`.
pub open spec fn hex_char(d: nat) -> char {
    if d < 10 {
        (48 + d) as char
    } else {
        (87 + d) as char
    }
}

/// Two lowercase hexadecimal digits per byte.
pub open spec fn hex_lower(bytes: Seq<u8>) -> Seq<char>
    decreases bytes.len(),
{
    if bytes.len() == 0 {
        Seq::empty()
    } else {
        hex_lower(bytes.drop_last()) + seq![
            hex_char((bytes.last() / 16) as nat),
            hex_char((bytes.last() % 16) as nat),
        ]
    }
}

/// The texts in order, with `sep` between neighbours.
pub open spec fn joined(parts: Seq<Seq<char>>, sep: Seq<char>) -> Seq<char>
    decreases parts.len(),
{
    if parts.len() == 0 {
        Seq::empty()
    } else if parts.len() == 1 {
        parts[0]
    } else {
        joined(parts.drop_last(), sep) + sep + parts.last()
    }
}

/// The views of a list of strings.
pub open spec fn views(parts: Seq<String>) -> Seq<Seq<char>> {
    parts.map_values(|s: String| s@)
}

pub(crate) proof fn lemma_views(parts: Seq<String>)
    ensures
        views(parts).len() == parts.len(),
        forall|i: int| 0 <= i < parts.len() ==> (#[trigger] parts[i])@ == views(parts)[i],
{
}

/// Lexicographic order on byte sequences.
pub open spec fn bytes_less(a: Seq<u8>, b: Seq<u8>) -> bool
    decreases a.len(),
{
    if b.len() == 0 {
        false
    } else if a.len() == 0 {
        true
    } else if a[0] != b[0] {
        a[0] < b[0]
    } else {
        bytes_less(a.drop_first(), b.drop_first())
    }
}

/// The order of texts by their UTF-8 bytes.
pub open spec fn text_less(a: Seq<char>, b: Seq<char>) -> bool {
    bytes_less(vstd::utf8::encode_utf8(a), vstd::utf8::encode_utf8(b))
}

/// One hexadecimal digit as text.
fn hex_digit_text(d: u8) -> (r: &'static str)
    requires
        d < 16,
    ensures
        r@ == seq![hex_char(d as nat)],
{
    proof {
        reveal_strlit("0");
        reveal_strlit("1");
        reveal_strlit("2");
        reveal_strlit("3");
        reveal_strlit("4");
        reveal_strlit("5");
        reveal_strlit("6");
        reveal_strlit("7");
        reveal_strlit("8");
        reveal_strlit("9");
        reveal_strlit("a");
        reveal_strlit("b");
        reveal_strlit("c");
        reveal_strlit("d");
        reveal_strlit("e");
        reveal_strlit("f");
    }
    match d {
        0 => "0",
        1 => "1",
        2 => "2",
        3 => "3",
        4 => "4",
        5 => "5",
        6 => "6",
        7 => "7",
        8 => "8",
        9 => "9",
        10 => "a",
        11 => "b",
        12 => "c",
        13 => "d",
        14 => "e",
        _ => "f",
    }
}

/// Render `n` in decimal.
pub fn u64_text(n: u64) -> (r: String)
    ensures
        r@ == decimal(n as nat),
    decreases n,
{
    if n < 10 {
        hex_digit_text(n as u8).to_owned()
    } else {
        let mut r: String = u64_text(n / 10);
        r.append(hex_digit_text((n % 10) as u8));
        assert(decimal((n / 10) as nat) + seq![digit_char((n % 10) as nat)] =~= decimal(n as nat));
        r
    }
}

/// Render a large number in decimal.
fn u128_text(n: u128) -> (r: String)
    ensures
        r@ == decimal(n as nat),
    decreases n,
{
    if n < 10 {
        hex_digit_text(n as u8).to_owned()
    } else {
        let mut r: String = u128_text(n / 10);
        r.append(hex_digit_text((n % 10) as u8));
        assert(decimal((n / 10) as nat) + seq![digit_char((n % 10) as nat)] =~= decimal(n as nat));
        r
    }
}

/// A number in decimal, with a sign where it is negative.
pub open spec fn signed_decimal(n: int) -> Seq<char> {
    if n < 0 {
        "-"@ + decimal((-n) as nat)
    } else {
        decimal(n as nat)
    }
}

/// Render a signed number in decimal.
pub fn i128_text(n: i128) -> (r: String)
    ensures
        r@ == signed_decimal(n as int),
{
    if n < 0 {
        let mut r: String = "-".to_owned();
        let above: u128 = (-(n + 1)) as u128;
        r.append(u128_text(above + 1).as_str());
        r
    } else {
        u128_text(n as u128)
    }
}

/// Render bytes as lowercase hexadecimal.
pub fn hex_text(bytes: &[u8]) -> (r: String)
    ensures
        r@ == hex_lower(bytes@),
{
    let mut r: String = String::new();
    let mut i: usize = 0;
    assert(bytes@.take(0) =~= Seq::<u8>::empty());
    while i < bytes.len()
        invariant
            i <= bytes@.len(),
            r@ == hex_lower(bytes@.take(i as int)),
        decreases bytes@.len() - i,
    {
        let b: u8 = bytes[i];
        r.append(hex_digit_text(b / 16));
        r.append(hex_digit_text(b % 16));
        i = i + 1;
        assert(bytes@.take(i as int).drop_last() =~= bytes@.take(i - 1));
        assert(hex_lower(bytes@.take(i as int)) =~= hex_lower(bytes@.take(i - 1)) + seq![
            hex_char((b / 16) as nat),
            hex_char((b % 16) as nat),
        ]);
    }
    assert(bytes@.take(i as int) =~= bytes@);
    r
}

/// Whether `a` holds the same characters as `lit`.
pub fn text_is(a: &String, lit: &str) -> (r: bool)
    ensures
        r == (a@ == lit@),
{
    *a == lit.to_owned()
}

/// Whether two 32-byte values are equal.
pub fn same32(a: &[u8; 32], b: &[u8; 32]) -> (r: bool)
    ensures
        r == (*a == *b),
{
    let mut i: usize = 0;
    while i < 32
        invariant
            i <= 32,
            forall|j: int| 0 <= j < i ==> a[j] == b[j],
        decreases 32 - i,
    {
        if a[i] != b[i] {
            return false;
        }
        i = i + 1;
    }
    assert(*a =~= *b);
    true
}

/// Whether `a` comes before `b` in byte order.
pub fn text_before(a: &String, b: &String) -> (r: bool)
    ensures
        r == text_less(a@, b@),
{
    let x: &[u8] = a.as_str().as_bytes();
    let y: &[u8] = b.as_str().as_bytes();
    let mut i: usize = 0;
    assert(x@.skip(0) =~= x@);
    assert(y@.skip(0) =~= y@);
    while i < x.len() && i < y.len() && x[i] == y[i]
        invariant
            i <= x@.len(),
            i <= y@.len(),
            bytes_less(x@, y@) == bytes_less(x@.skip(i as int), y@.skip(i as int)),
        decreases x@.len() - i,
    {
        i = i + 1;
        assert(x@.skip(i - 1).drop_first() =~= x@.skip(i as int));
        assert(y@.skip(i - 1).drop_first() =~= y@.skip(i as int));
    }
    if i == y.len() {
        false
    } else if i == x.len() {
        true
    } else {
        x[i] < y[i]
    }
}

/// Byte order is irreflexive.
pub proof fn lemma_bytes_less_irreflexive(a: Seq<u8>)
    ensures
        !bytes_less(a, a),
    decreases a.len(),
{
    if a.len() > 0 {
        lemma_bytes_less_irreflexive(a.drop_first());
    }
}

/// Byte order is transitive.
pub proof fn lemma_bytes_less_transitive(a: Seq<u8>, b: Seq<u8>, c: Seq<u8>)
    requires
        bytes_less(a, b),
        bytes_less(b, c),
    ensures
        bytes_less(a, c),
    decreases a.len(),
{
    if a.len() > 0 && a[0] == b[0] && b[0] == c[0] {
        lemma_bytes_less_transitive(a.drop_first(), b.drop_first(), c.drop_first());
    }
}

/// Of two distinct byte sequences one comes first.
pub proof fn lemma_bytes_less_total(a: Seq<u8>, b: Seq<u8>)
    ensures
        a == b || bytes_less(a, b) || bytes_less(b, a),
    decreases a.len(),
{
    if a.len() > 0 && b.len() > 0 && a[0] == b[0] {
        lemma_bytes_less_total(a.drop_first(), b.drop_first());
        if a.drop_first() == b.drop_first() {
            assert(a =~= seq![a[0]] + a.drop_first());
            assert(b =~= seq![b[0]] + b.drop_first());
        }
    } else if a.len() == 0 && b.len() == 0 {
        assert(a =~= b);
    }
}

/// Text order is a strict total order.
pub proof fn law_text_order(a: Seq<char>, b: Seq<char>, c: Seq<char>)
    ensures
        !text_less(a, a),
        text_less(a, b) && text_less(b, c) ==> text_less(a, c),
        a == b || text_less(a, b) || text_less(b, a),
        !(text_less(a, b) && text_less(b, a)),
{
    let x = vstd::utf8::encode_utf8(a);
    let y = vstd::utf8::encode_utf8(b);
    let z = vstd::utf8::encode_utf8(c);
    lemma_bytes_less_irreflexive(x);
    if bytes_less(x, y) && bytes_less(y, z) {
        lemma_bytes_less_transitive(x, y, z);
    }
    if bytes_less(x, y) && bytes_less(y, x) {
        lemma_bytes_less_transitive(x, y, x);
    }
    lemma_bytes_less_total(x, y);
    if x == y {
        vstd::utf8::encode_utf8_decode_utf8(a);
        vstd::utf8::encode_utf8_decode_utf8(b);
    }
}

/// No text in the list comes before an earlier one.
pub open spec fn sorted_texts(s: Seq<String>) -> bool {
    forall|i: int, j: int| 0 <= i < j < s.len() ==> !text_less((#[trigger] s[j])@, (#[trigger] s[i])@)
}

/// Some entry of the list holds `text`.
pub open spec fn holds_text(s: Seq<String>, text: Seq<char>) -> bool {
    exists|i: int| 0 <= i < s.len() && (#[trigger] s[i])@ == text
}

/// Whether some entry of the list holds `text`.
pub fn list_holds(list: &Vec<String>, text: &String) -> (r: bool)
    ensures
        r == holds_text(list@, text@),
{
    let mut i: usize = 0;
    while i < list.len()
        invariant
            i <= list@.len(),
            forall|j: int| 0 <= j < i ==> (#[trigger] list@[j])@ != text@,
        decreases list@.len() - i,
    {
        if list[i] == *text {
            return true;
        }
        i = i + 1;
    }
    false
}

/// Insert a text into a sorted list, keeping it sorted.
pub fn insert_sorted(list: &mut Vec<String>, item: String)
    requires
        sorted_texts(old(list)@),
    ensures
        sorted_texts(final(list)@),
        exists|p: int|
            0 <= p <= old(list)@.len() && final(list)@ == #[trigger] old(list)@.insert(p, item),
{
    let ghost before = list@;
    let mut p: usize = 0;
    while p < list.len() && !text_before(&item, &list[p])
        invariant
            p <= list@.len(),
            list@ == before,
            forall|j: int| 0 <= j < p ==> !text_less(item@, (#[trigger] before[j])@),
        decreases list@.len() - p,
    {
        p = p + 1;
    }
    list.insert(p, item);
    proof {
        let after = before.insert(p as int, item);
        assert forall|i: int, j: int| 0 <= i < j < after.len() implies !text_less(
            (#[trigger] after[j])@,
            (#[trigger] after[i])@,
        ) by {
            if j == p {
                assert(after[i] == before[i]);
            } else if i == p {
                assert(after[j] == before[j - 1]);
                assert(text_less(item@, before[p as int]@));
                law_text_order(before[j - 1]@, item@, before[p as int]@);
                law_text_order(item@, before[j - 1]@, item@);
                if j - 1 > p {
                    assert(!text_less(before[j - 1]@, before[p as int]@));
                }
            } else {
                let x = if i < p { i } else { i - 1 };
                let y = if j < p { j } else { j - 1 };
                assert(after[i] == before[x] && after[j] == before[y]);
            }
        }
    }
}

/// The parts one after the other, with `sep` between them.
pub fn join(parts: &Vec<String>, sep: &str) -> (r: String)
    ensures
        r@ == joined(views(parts@), sep@),
{
    let mut r: String = "".to_owned();
    let mut i: usize = 0;
    let ghost all = views(parts@);
    proof {
        reveal_strlit("");
        assert(r@ =~= Seq::<char>::empty());
        assert(all.take(0) =~= Seq::<Seq<char>>::empty());
    }
    while i < parts.len()
        invariant
            i <= parts@.len(),
            all == views(parts@),
            r@ == joined(all.take(i as int), sep@),
        decreases parts@.len() - i,
    {
        proof {
            assert(all.take(i + 1).drop_last() =~= all.take(i as int));
            assert(all.take(i + 1).last() == parts@[i as int]@);
            if i == 0 {
                assert(r@ + parts@[0]@ =~= parts@[0]@);
            }
        }
        if i > 0 {
            r.append(sep);
        }
        r.append(parts[i].as_str());
        i = i + 1;
    }
    assert(all.take(i as int) =~= all);
    r
}

/// The middle text between two others.
pub fn between(before: &str, middle: &str, after: &str) -> (r: String)
    ensures
        r@ == before@ + middle@ + after@,
{
    let mut r: String = before.to_owned();
    r.append(middle);
    r.append(after);
    r
}

/// `part` occurs in `whole` at position `at`.
pub open spec fn occurs_at(whole: Seq<char>, part: Seq<char>, at: int) -> bool {
    0 <= at && at + part.len() <= whole.len() && whole.subrange(at, at + part.len()) == part
}

/// `part` occurs somewhere in `whole`.
pub open spec fn occurs(whole: Seq<char>, part: Seq<char>) -> bool {
    exists|at: int| #[trigger] occurs_at(whole, part, at)
}

pub(crate) proof fn lemma_occurs_between(before: Seq<char>, part: Seq<char>, after: Seq<char>)
    ensures
        occurs(before + part + after, part),
{
    let whole = before + part + after;
    let at = before.len() as int;
    assert(whole.subrange(at, at + part.len()) =~= part);
    assert(occurs_at(whole, part, at));
}

pub(crate) proof fn lemma_next_is_shown(head: Seq<char>, a: Seq<char>, x: Seq<char>, rest: Seq<char>)
    ensures
        occurs(head + a + x + rest, a + x),
        occurs(head + a + x, a + x),
{
    let none = Seq::<char>::empty();
    let part = a + x;
    assert(head + a + x + rest =~= head + part + rest);
    assert(head + a + x =~= head + part + none);
    lemma_occurs_between(head, part, rest);
    lemma_occurs_between(head, part, none);
}

pub(crate) proof fn lemma_still_shown(whole: Seq<char>, part: Seq<char>, a: Seq<char>, x: Seq<char>)
    requires
        occurs(whole, part),
    ensures
        occurs(whole + a + x, part),
{
    let at = choose|at: int| #[trigger] occurs_at(whole, part, at);
    let longer = whole + a + x;
    assert(longer.subrange(at, at + part.len()) =~= whole.subrange(at, at + part.len()));
    assert(occurs_at(longer, part, at));
}

/// Whether `part` occurs somewhere in `whole`.
pub fn contains(whole: &str, part: &str) -> (r: bool)
    ensures
        r == occurs(whole@, part@),
{
    let n: usize = whole.unicode_len();
    let m: usize = part.unicode_len();
    if m > n {
        return false;
    }
    let mut at: usize = 0;
    while at <= n - m
        invariant
            n == whole@.len(),
            m == part@.len(),
            m <= n,
            at <= n - m + 1,
            forall|k: int| 0 <= k < at ==> !#[trigger] occurs_at(whole@, part@, k),
        decreases n - m + 1 - at,
    {
        let mut i: usize = 0;
        while i < m && whole.get_char(at + i) == part.get_char(i)
            invariant
                n == whole@.len(),
                m == part@.len(),
                at + m <= n,
                i <= m,
                forall|k: int| 0 <= k < i ==> whole@[at + k] == #[trigger] part@[k],
            decreases m - i,
        {
            i = i + 1;
        }
        if i == m {
            assert(whole@.subrange(at as int, at + part@.len()) =~= part@);
            assert(occurs_at(whole@, part@, at as int));
            return true;
        }
        proof {
            let piece = whole@.subrange(at as int, at + part@.len());
            assert(piece[i as int] == whole@[at + i]);
            assert(!occurs_at(whole@, part@, at as int));
        }
        if at == n - m {
            proof {
                assert forall|k: int| !#[trigger] occurs_at(whole@, part@, k) by {}
            }
            return false;
        }
        at = at + 1;
    }
    proof {
        assert forall|k: int| !#[trigger] occurs_at(whole@, part@, k) by {}
    }
    false
}

/// `name` below the directory `base`: a separator comes between them unless
/// `base` is empty or ends in one.
pub open spec fn joined_path(base: Seq<char>, name: Seq<char>) -> Seq<char> {
    if base.len() == 0 || base.last() == '/' {
        base + name
    } else {
        base + "/"@ + name
    }
}

/// The path of `name` below the directory `base`. `name` is a relative one.
pub fn join_path(base: &str, name: &str) -> (r: String)
    ensures
        r@ == joined_path(base@, name@),
{
    let n: usize = base.unicode_len();
    let mut r: String = base.to_owned();
    if n > 0 && base.get_char(n - 1) != '/' {
        r.append("/");
    }
    r.append(name);
    r
}

/// A number is written digit by digit: below ten it is its one digit, and otherwise
/// what is written of its tenth with its last digit behind.
pub proof fn law_numbers_are_written_digit_by_digit(
    n: u64,
    tenth: String,
    r: String,
    small: u64,
    one: String,
)
    requires
        n >= 10,
        small < 10,
        call_ensures(u64_text, (n,), r),
        call_ensures(u64_text, ((n / 10) as u64,), tenth),
        call_ensures(u64_text, (small,), one),
    ensures
        one@.len() == 1,
        one@[0] as u32 == '0' as u32 + small,
        r@.len() == tenth@.len() + 1,
        r@.drop_last() == tenth@,
        r@.last() as u32 == '0' as u32 + n % 10,
{
    assert(r@.drop_last() =~= tenth@);
}

/// A number below zero is written with a minus before what it lacks, any other as it
/// is.
pub proof fn law_negative_numbers_have_a_minus(n: i128, m: u64, r: String, plain: String)
    requires
        n == m || n == -(m as int),
        call_ensures(i128_text, (n,), r),
        call_ensures(u64_text, (m,), plain),
    ensures
        n >= 0 ==> r@ == plain@,
        n < 0 ==> r@ == "-"@ + plain@,
{
}

/// Bytes are written in hexadecimal two characters each, the high half first, from
/// `0` to `9` and then from `a` to `f`.
pub proof fn law_bytes_are_written_in_halves(bytes: &[u8], r: String, i: int, h: char, l: char)
    requires
        call_ensures(hex_text, (bytes,), r),
        0 <= i < bytes@.len(),
        h == r@[2 * i],
        l == r@[2 * i + 1],
    ensures
        r@.len() == 2 * bytes@.len(),
        h as u32 == if bytes@[i] / 16 < 10 { '0' as u32 + bytes@[i] / 16 } else {
            'a' as u32 + bytes@[i] / 16 - 10
        },
        l as u32 == if bytes@[i] % 16 < 10 { '0' as u32 + bytes@[i] % 16 } else {
            'a' as u32 + bytes@[i] % 16 - 10
        },
{
    lemma_hex_halves(bytes@, i);
    assert(bytes@[i] / 16 <= 15 && bytes@[i] % 16 <= 15);
}

proof fn lemma_hex_halves(bytes: Seq<u8>, i: int)
    requires
        0 <= i < bytes.len(),
    ensures
        hex_lower(bytes).len() == 2 * bytes.len(),
        hex_lower(bytes)[2 * i] == hex_char((bytes[i] / 16) as nat),
        hex_lower(bytes)[2 * i + 1] == hex_char((bytes[i] % 16) as nat),
    decreases bytes.len(),
{
    let init = bytes.drop_last();
    if init.len() > 0 {
        if i < init.len() {
            lemma_hex_halves(init, i);
        } else {
            lemma_hex_halves(init, 0);
        }
    } else {
        assert(hex_lower(init).len() == 0);
    }
}

/// Of two texts the one comes first that has the smaller byte where they first
/// differ, or that ends where the other goes on; a text does not come before itself.
pub proof fn law_first_difference_orders(a: String, b: String, k: int, r: bool, itself: bool)
    requires
        call_ensures(text_before, (&a, &b), r),
        call_ensures(text_before, (&a, &a), itself),
    ensures
        !itself,
        ({
            let x = vstd::utf8::encode_utf8(a@);
            let y = vstd::utf8::encode_utf8(b@);
            0 <= k <= x.len() && k < y.len() && x.take(k) == y.take(k) ==> (k == x.len() ==> r) && (k
                < x.len() && x[k] != y[k] ==> (r <==> x[k] < y[k]))
        }),
{
    let x = vstd::utf8::encode_utf8(a@);
    let y = vstd::utf8::encode_utf8(b@);
    lemma_bytes_less_irreflexive(x);
    if 0 <= k <= x.len() && k < y.len() && x.take(k) == y.take(k) {
        lemma_less_behind_prefix(x, y, k);
    }
}

proof fn lemma_less_behind_prefix(x: Seq<u8>, y: Seq<u8>, k: int)
    requires
        0 <= k <= x.len(),
        k < y.len(),
        x.take(k) == y.take(k),
    ensures
        bytes_less(x, y) == bytes_less(x.skip(k), y.skip(k)),
        k == x.len() ==> bytes_less(x, y),
        k < x.len() && x[k] != y[k] ==> bytes_less(x, y) == (x[k] < y[k]),
    decreases k,
{
    if k == 0 {
        assert(x.skip(0) =~= x && y.skip(0) =~= y);
    } else {
        assert(x[0] == x.take(k)[0] && y[0] == y.take(k)[0]);
        let p = x.drop_first();
        let q = y.drop_first();
        assert(p.take(k - 1) =~= x.take(k).drop_first());
        assert(q.take(k - 1) =~= y.take(k).drop_first());
        lemma_less_behind_prefix(p, q, k - 1);
        assert(p.skip(k - 1) =~= x.skip(k));
        assert(q.skip(k - 1) =~= y.skip(k));
    }
}

/// Parts are joined with the separator between any two of them and nowhere else.
pub proof fn law_joins_separate_the_parts(
    parts: Vec<String>,
    longer: Vec<String>,
    sep: &str,
    r: String,
    more: String,
)
    requires
        call_ensures(join, (&parts, sep), r),
        call_ensures(join, (&longer, sep), more),
        longer@.len() == parts@.len() + 1,
        longer@.drop_last() == parts@,
    ensures
        parts@.len() == 0 ==> r@.len() == 0 && more@ == longer@.last()@,
        parts@.len() > 0 ==> more@ == r@ + sep@ + longer@.last()@,
{
    let all = views(longer@);
    assert(all.drop_last() =~= views(parts@));
    assert(all.last() == longer@.last()@);
    if parts@.len() == 0 {
        assert(all.len() == 1);
    }
}

/// A part is found where it stands, whatever is around it, and what is found is
/// there.
pub proof fn law_parts_are_found_where_they_stand(
    whole: &str,
    part: &str,
    before: Seq<char>,
    after: Seq<char>,
    r: bool,
)
    requires
        call_ensures(contains, (whole, part), r),
    ensures
        whole@ == before + part@ + after ==> r,
        r ==> exists|at: int| #![trigger whole@.subrange(at, at + part@.len())]
            0 <= at && at + part@.len() <= whole@.len() && whole@.subrange(at, at + part@.len())
                == part@,
{
    if whole@ == before + part@ + after {
        lemma_occurs_between(before, part@, after);
    }
    if r {
        let at = choose|at: int| #[trigger] occurs_at(whole@, part@, at);
        assert(whole@.subrange(at, at + part@.len()) == part@);
    }
}

/// A name goes below a directory behind one slash, which is written only where the
/// directory does not end in one.
pub proof fn law_paths_have_one_slash(base: &str, name: &str, r: String)
    requires
        call_ensures(join_path, (base, name), r),
    ensures
        base@.len() > 0 && base@.last() != '/' ==> r@ == base@.push('/') + name@,
        base@.len() > 0 && base@.last() == '/' ==> r@ == base@ + name@,
        base@.len() == 0 ==> r@ == name@,
{
    reveal_strlit("/");
    if base@.len() > 0 && base@.last() != '/' {
        assert(r@ =~= base@.push('/') + name@);
    }
}

/// A text that is put into a sorted list is in it, with all that was, and the list
/// is sorted still.
pub proof fn law_sorted_lists_stay_sorted(list: &mut Vec<String>, item: String, i: int, j: int)
    requires
        sorted_texts(old(list)@),
        call_ensures(insert_sorted, (list, item), ()),
    ensures
        final(list)@.len() == old(list)@.len() + 1,
        final(list)@.contains(item),
        0 <= i < old(list)@.len() ==> final(list)@.contains(old(list)@[i]),
        0 <= i < j < final(list)@.len() ==> !text_less(final(list)@[j]@, final(list)@[i]@),
{
    let before = old(list)@;
    let after = final(list)@;
    let p = choose|p: int|
        0 <= p <= before.len() && after == #[trigger] before.insert(p, item);
    assert(after[p] == item);
    if 0 <= i < before.len() {
        let q = if i < p { i } else { i + 1 };
        assert(after[q] == before[i]);
    }
}

} // verus!
