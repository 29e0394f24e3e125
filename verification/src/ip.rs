//! IP addresses written as text: dotted quads and colon-separated groups.

use crate::text::{chars_of, decimal_value, is_digit};
use vstd::prelude::*;

verus! {

/// The fields of a text between the occurrences of a separator. A text
/// without the separator is one field; two separators in a row, or one at
/// either end, leave an empty field.
pub open spec fn split(s: Seq<char>, sep: char) -> Seq<Seq<char>>
    decreases s.len(),
{
    if s.len() == 0 {
        seq![Seq::<char>::empty()]
    } else {
        let before = split(s.drop_last(), sep);
        if s.last() == sep {
            before.push(Seq::<char>::empty())
        } else {
            before.drop_last().push(before.last().push(s.last()))
        }
    }
}

/// The views of a list of fields.
pub open spec fn field_views(fields: Seq<Vec<char>>) -> Seq<Seq<char>> {
    fields.map_values(|f: Vec<char>| f@)
}

/// Splits a text at a separator.
fn split_fields(text: &Vec<char>, sep: char) -> (fields: Vec<Vec<char>>)
    ensures
        field_views(fields@) == split(text@, sep),
        fields@.len() >= 1,
{
    let mut fields: Vec<Vec<char>> = Vec::new();
    let mut current: Vec<char> = Vec::new();
    let mut i: usize = 0;
    assert(text@.take(0) =~= Seq::<char>::empty());
    assert(field_views(fields@).push(current@) =~= seq![Seq::<char>::empty()]);
    while i < text.len()
        invariant
            0 <= i <= text.len(),
            field_views(fields@).push(current@) == split(text@.take(i as int), sep),
        decreases text.len() - i,
    {
        let c = text[i];
        let ghost done = field_views(fields@);
        let ghost open = current@;
        proof {
            let longer = text@.take(i + 1);
            assert(longer.drop_last() =~= text@.take(i as int));
            assert(longer.last() == c);
            assert(done.push(open).drop_last() =~= done);
        }
        if c == sep {
            fields.push(current);
            current = Vec::new();
            assert(field_views(fields@) =~= done.push(open));
        } else {
            current.push(c);
        }
        i = i + 1;
    }
    assert(text@.take(i as int) =~= text@);
    let ghost done = field_views(fields@);
    fields.push(current);
    assert(field_views(fields@) =~= done.push(current@));
    fields
}

/// One number of a dotted quad: one to three decimal digits, no leading zero
/// before another digit, and a value of at most 255.
pub open spec fn is_octet(field: Seq<char>) -> bool {
    &&& 1 <= field.len() <= 3
    &&& forall|i: int| 0 <= i < field.len() ==> is_digit(#[trigger] field[i])
    &&& (field.len() > 1 ==> field[0] != '0')
    &&& decimal_value(field) <= 255
}

/// Reads one number of a dotted quad.
fn read_octet(field: &Vec<char>) -> (r: Option<u8>)
    ensures
        r is Some <==> is_octet(field@),
        r matches Some(v) ==> v == decimal_value(field@),
{
    let n: usize = field.len();
    if n == 0 || n > 3 {
        return None;
    }
    if n > 1 && field[0] == '0' {
        return None;
    }
    let mut value: u32 = 0;
    let mut i: usize = 0;
    assert(field@.take(0) =~= Seq::<char>::empty());
    while i < n
        invariant
            0 <= i <= n,
            n == field.len(),
            n <= 3,
            forall|j: int| 0 <= j < i ==> is_digit(#[trigger] field@[j]),
            value == decimal_value(field@.take(i as int)),
            i == 0 ==> value == 0,
            i == 1 ==> value < 10,
            i == 2 ==> value < 100,
            i == 3 ==> value < 1000,
        decreases n - i,
    {
        let c = field[i];
        if !(c >= '0' && c <= '9') {
            assert(!is_digit(field@[i as int]));
            return None;
        }
        let d: u32 = c as u32 - '0' as u32;
        proof {
            let longer = field@.take(i + 1);
            assert(longer.drop_last() =~= field@.take(i as int));
            assert(longer.last() == c);
        }
        value = value * 10 + d;
        i = i + 1;
    }
    assert(field@.take(i as int) =~= field@);
    if value > 255 {
        return None;
    }
    Some(value as u8)
}

/// The four numbers of a dotted quad such as `192.168.1.1`; nothing for any
/// other text.
pub open spec fn ipv4_of(s: Seq<char>) -> Option<Seq<u8>> {
    let fields = split(s, '.');
    if fields.len() == 4 && is_octet(fields[0]) && is_octet(fields[1]) && is_octet(fields[2])
        && is_octet(fields[3]) {
        Some(
            seq![
                decimal_value(fields[0]) as u8,
                decimal_value(fields[1]) as u8,
                decimal_value(fields[2]) as u8,
                decimal_value(fields[3]) as u8,
            ],
        )
    } else {
        None
    }
}

/// Reads a dotted quad.
fn read_ipv4(text: &Vec<char>) -> (r: Option<[u8; 4]>)
    ensures
        match r {
            Some(octets) => ipv4_of(text@) == Some(octets@),
            None => ipv4_of(text@) is None,
        },
{
    let fields = split_fields(text, '.');
    if fields.len() != 4 {
        return None;
    }
    assert(forall|i: int| 0 <= i < 4 ==> field_views(fields@)[i] == fields@[i]@);
    let a = read_octet(&fields[0]);
    let b = read_octet(&fields[1]);
    let c = read_octet(&fields[2]);
    let d = read_octet(&fields[3]);
    match (a, b, c, d) {
        (Some(a), Some(b), Some(c), Some(d)) => {
            let octets: [u8; 4] = [a, b, c, d];
            assert(octets@ =~= ipv4_of(text@).unwrap());
            Some(octets)
        },
        _ => None,
    }
}

/// True for a hexadecimal digit in either case.
pub open spec fn is_hex_digit(c: char) -> bool {
    is_digit(c) || ('a' <= c && c <= 'f') || ('A' <= c && c <= 'F')
}

/// The value of a hexadecimal digit.
pub open spec fn hex_digit_value(c: char) -> nat
    recommends
        is_hex_digit(c),
{
    if is_digit(c) {
        (c as u32 - '0' as u32) as nat
    } else if 'a' <= c && c <= 'f' {
        (c as u32 - 'a' as u32 + 10) as nat
    } else {
        (c as u32 - 'A' as u32 + 10) as nat
    }
}

/// The number that a run of hexadecimal digits denotes.
pub open spec fn hex_value(s: Seq<char>) -> nat
    decreases s.len(),
{
    if s.len() == 0 {
        0
    } else {
        hex_value(s.drop_last()) * 16 + hex_digit_value(s.last())
    }
}

/// One group of a colon-separated address: one to four hexadecimal digits.
pub open spec fn is_group(field: Seq<char>) -> bool {
    &&& 1 <= field.len() <= 4
    &&& forall|i: int| 0 <= i < field.len() ==> is_hex_digit(#[trigger] field[i])
}

/// Reads one group of a colon-separated address.
fn read_group(field: &Vec<char>) -> (r: Option<u16>)
    ensures
        r is Some <==> is_group(field@),
        r matches Some(v) ==> v == hex_value(field@),
{
    let n: usize = field.len();
    if n == 0 || n > 4 {
        return None;
    }
    let mut value: u32 = 0;
    let mut i: usize = 0;
    assert(field@.take(0) =~= Seq::<char>::empty());
    while i < n
        invariant
            0 <= i <= n,
            n == field.len(),
            n <= 4,
            forall|j: int| 0 <= j < i ==> is_hex_digit(#[trigger] field@[j]),
            value == hex_value(field@.take(i as int)),
            i == 0 ==> value == 0,
            i == 1 ==> value < 0x10,
            i == 2 ==> value < 0x100,
            i == 3 ==> value < 0x1000,
            i == 4 ==> value < 0x10000,
        decreases n - i,
    {
        let c = field[i];
        let d: u32 = if c >= '0' && c <= '9' {
            c as u32 - '0' as u32
        } else if c >= 'a' && c <= 'f' {
            c as u32 - 'a' as u32 + 10
        } else if c >= 'A' && c <= 'F' {
            c as u32 - 'A' as u32 + 10
        } else {
            assert(!is_hex_digit(field@[i as int]));
            return None;
        };
        proof {
            let longer = field@.take(i + 1);
            assert(longer.drop_last() =~= field@.take(i as int));
            assert(longer.last() == c);
        }
        value = value * 16 + d;
        i = i + 1;
    }
    assert(field@.take(i as int) =~= field@);
    Some(value as u16)
}

/// The two groups that the four numbers of a dotted quad fill.
pub open spec fn quad_groups(octets: Seq<u8>) -> Seq<u16>
    recommends
        octets.len() == 4,
{
    seq![(octets[0] * 256 + octets[1]) as u16, (octets[2] * 256 + octets[3]) as u16]
}

/// The values of a run of groups.
pub open spec fn group_values(fields: Seq<Seq<char>>) -> Seq<u16> {
    fields.map_values(|f: Seq<char>| hex_value(f) as u16)
}

/// The groups that a colon-separated run denotes. The empty text is no
/// group at all. Otherwise every field is a group, except that the last may
/// be a dotted quad where `quad_allowed`, which then fills two groups.
pub open spec fn groups_of(text: Seq<char>, quad_allowed: bool) -> Option<Seq<u16>> {
    if text.len() == 0 {
        Some(Seq::<u16>::empty())
    } else {
        let fields = split(text, ':');
        let front = fields.drop_last();
        let last = fields.last();
        if forall|i: int| 0 <= i < front.len() ==> is_group(#[trigger] front[i]) {
            if is_group(last) {
                Some(group_values(front).push(hex_value(last) as u16))
            } else if quad_allowed {
                match ipv4_of(last) {
                    Some(octets) => Some(group_values(front) + quad_groups(octets)),
                    None => None,
                }
            } else {
                None
            }
        } else {
            None
        }
    }
}

/// Reads a colon-separated run of groups.
fn read_groups(text: &Vec<char>, quad_allowed: bool) -> (r: Option<Vec<u16>>)
    ensures
        match r {
            Some(groups) => groups_of(text@, quad_allowed) == Some(groups@),
            None => groups_of(text@, quad_allowed) is None,
        },
{
    let mut groups: Vec<u16> = Vec::new();
    if text.len() == 0 {
        return Some(groups);
    }
    let fields = split_fields(text, ':');
    let ghost all = split(text@, ':');
    let ghost front = all.drop_last();
    let last_at: usize = fields.len() - 1;
    let mut i: usize = 0;
    assert(group_values(front.take(0)) =~= Seq::<u16>::empty());
    while i < last_at
        invariant
            0 <= i <= last_at,
            last_at == fields.len() - 1,
            text@.len() > 0,
            all == split(text@, ':'),
            field_views(fields@) == all,
            front == all.drop_last(),
            forall|j: int| 0 <= j < i ==> is_group(#[trigger] front[j]),
            groups@ == group_values(front.take(i as int)),
        decreases last_at - i,
    {
        assert(front[i as int] == fields@[i as int]@);
        match read_group(&fields[i]) {
            Some(value) => {
                assert(group_values(front.take(i + 1)) =~= group_values(front.take(i as int)).push(
                    value,
                ));
                groups.push(value);
            },
            None => {
                return None;
            },
        }
        i = i + 1;
    }
    assert(front.take(i as int) =~= front);
    assert(all.last() == fields@[last_at as int]@);
    match read_group(&fields[last_at]) {
        Some(value) => {
            groups.push(value);
            Some(groups)
        },
        None => {
            if !quad_allowed {
                return None;
            }
            match read_ipv4(&fields[last_at]) {
                Some(octets) => {
                    let high: u16 = (octets[0] as u16) * 256 + (octets[1] as u16);
                    let low: u16 = (octets[2] as u16) * 256 + (octets[3] as u16);
                    groups.push(high);
                    groups.push(low);
                    assert(groups@ =~= group_values(front) + quad_groups(octets@));
                    Some(groups)
                },
                None => None,
            }
        },
    }
}

/// True when a text holds `::` at position `k`.
pub open spec fn is_gap_at(s: Seq<char>, k: int) -> bool {
    0 <= k && k + 1 < s.len() && s[k] == ':' && s[k + 1] == ':'
}

/// True when `k` is the first position at which a text holds `::`.
pub open spec fn is_first_gap(s: Seq<char>, k: int) -> bool {
    is_gap_at(s, k) && forall|j: int| 0 <= j < k ==> !is_gap_at(s, j)
}

/// The first position at which a text holds `::`, if it holds one.
pub open spec fn first_gap(s: Seq<char>) -> Option<int> {
    if exists|k: int| is_first_gap(s, k) {
        Some(choose|k: int| is_first_gap(s, k))
    } else {
        None
    }
}

/// Finds the first `::`.
fn find_gap(text: &Vec<char>) -> (r: Option<usize>)
    ensures
        match r {
            Some(k) => first_gap(text@) == Some(k as int) && k + 2 <= text.len(),
            None => first_gap(text@) is None,
        },
{
    if text.len() < 2 {
        return None;
    }
    let mut k: usize = 0;
    while k < text.len() - 1
        invariant
            text.len() >= 2,
            0 <= k <= text.len() - 1,
            forall|j: int| 0 <= j < k ==> !is_gap_at(text@, j),
        decreases text.len() - k,
    {
        if text[k] == ':' && text[k + 1] == ':' {
            assert(is_first_gap(text@, k as int));
            let ghost chosen = choose|c: int| is_first_gap(text@, c);
            assert(chosen == k) by {
                if chosen < k {
                    assert(!is_gap_at(text@, chosen));
                }
                if k < chosen {
                    assert(!is_gap_at(text@, k as int));
                }
            }
            return Some(k);
        }
        k = k + 1;
    }
    assert forall|c: int| !is_first_gap(text@, c) by {
        if is_gap_at(text@, c) {
            assert(c < k);
        }
    }
    None
}

/// A run of zero groups.
pub open spec fn zero_groups(n: int) -> Seq<u16> {
    Seq::new(n as nat, |i: int| 0u16)
}

/// The eight groups of a colon-separated address; nothing for any other
/// text. Without `::` the text holds all eight groups, the last two of which
/// may be written as a dotted quad. With `::`, which stands for one or more
/// zero groups, the groups before it and after it are at most seven; a dotted
/// quad may stand only at the very end.
pub open spec fn ipv6_of(s: Seq<char>) -> Option<Seq<u16>> {
    match first_gap(s) {
        None => match groups_of(s, true) {
            Some(groups) => if groups.len() == 8 {
                Some(groups)
            } else {
                None
            },
            None => None,
        },
        Some(k) => match (groups_of(s.take(k), false), groups_of(s.skip(k + 2), true)) {
            (Some(head), Some(tail)) => if head.len() + tail.len() <= 7 {
                Some(head + zero_groups(8 - head.len() - tail.len()) + tail)
            } else {
                None
            },
            _ => None,
        },
    }
}

/// Copies the characters from `from` up to `to`.
fn part_of(text: &Vec<char>, from: usize, to: usize) -> (part: Vec<char>)
    requires
        from <= to <= text.len(),
    ensures
        part@ == text@.subrange(from as int, to as int),
{
    let mut part: Vec<char> = Vec::new();
    let mut i: usize = from;
    while i < to
        invariant
            from <= i <= to <= text.len(),
            part@ == text@.subrange(from as int, i as int),
        decreases to - i,
    {
        part.push(text[i]);
        assert(part@ =~= text@.subrange(from as int, i + 1));
        i = i + 1;
    }
    part
}

/// Puts the zero groups that `::` stands for between the groups before it
/// and the groups after it.
fn fill_gap(head: Vec<u16>, tail: &Vec<u16>) -> (all: Vec<u16>)
    requires
        head.len() + tail.len() <= 7,
    ensures
        all@ == head@ + zero_groups(8 - head.len() - tail.len()) + tail@,
        all.len() == 8,
{
    let ghost head_groups = head@;
    let zeros: usize = 8 - head.len() - tail.len();
    let mut all: Vec<u16> = head;
    let mut i: usize = 0;
    assert(all@ =~= head_groups + zero_groups(0));
    while i < zeros
        invariant
            0 <= i <= zeros,
            all@ == head_groups + zero_groups(i as int),
        decreases zeros - i,
    {
        all.push(0);
        assert(all@ =~= head_groups + zero_groups(i + 1));
        i = i + 1;
    }
    let mut j: usize = 0;
    assert(all@ =~= head_groups + zero_groups(zeros as int) + tail@.take(0));
    while j < tail.len()
        invariant
            0 <= j <= tail.len(),
            all@ == head_groups + zero_groups(zeros as int) + tail@.take(j as int),
        decreases tail.len() - j,
    {
        all.push(tail[j]);
        assert(all@ =~= head_groups + zero_groups(zeros as int) + tail@.take(j + 1));
        j = j + 1;
    }
    assert(tail@.take(j as int) =~= tail@);
    all
}

/// The eight groups of a list as an array.
fn eight_of(all: &Vec<u16>) -> (groups: [u16; 8])
    requires
        all.len() == 8,
    ensures
        groups@ == all@,
{
    let groups: [u16; 8] = [all[0], all[1], all[2], all[3], all[4], all[5], all[6], all[7]];
    assert(groups@ =~= all@);
    groups
}

/// Reads a colon-separated address.
fn read_ipv6(text: &Vec<char>) -> (r: Option<[u16; 8]>)
    ensures
        match r {
            Some(groups) => ipv6_of(text@) == Some(groups@),
            None => ipv6_of(text@) is None,
        },
{
    match find_gap(text) {
        None => match read_groups(text, true) {
            Some(groups) => {
                if groups.len() != 8 {
                    return None;
                }
                Some(eight_of(&groups))
            },
            None => None,
        },
        Some(k) => {
            let head_text = part_of(text, 0, k);
            let tail_text = part_of(text, k + 2, text.len());
            assert(head_text@ =~= text@.take(k as int));
            assert(tail_text@ =~= text@.skip(k + 2));
            let head = match read_groups(&head_text, false) {
                Some(head) => head,
                None => {
                    return None;
                },
            };
            let tail = match read_groups(&tail_text, true) {
                Some(tail) => tail,
                None => {
                    return None;
                },
            };
            if head.len() > 7 || tail.len() > 7 - head.len() {
                return None;
            }
            let all = fill_gap(head, &tail);
            Some(eight_of(&all))
        },
    }
}

/// An IP address.
#[derive(Debug, Clone, Copy, PartialEq, Eq)]
pub enum HostAddress {
    /// The four numbers of an IPv4 address.
    V4([u8; 4]),
    /// The eight groups of an IPv6 address.
    V6([u16; 8]),
}

/// An IP address as contracts see it.
pub ghost enum HostValue {
    V4(Seq<u8>),
    V6(Seq<u16>),
}

impl View for HostAddress {
    type V = HostValue;

    open spec fn view(&self) -> HostValue {
        match self {
            HostAddress::V4(octets) => HostValue::V4(octets@),
            HostAddress::V6(groups) => HostValue::V6(groups@),
        }
    }
}

/// The address that a text spells: a dotted quad, or else a colon-separated
/// address; nothing for a host name or any other text.
pub open spec fn host_of(s: Seq<char>) -> Option<HostValue> {
    match ipv4_of(s) {
        Some(octets) => Some(HostValue::V4(octets)),
        None => match ipv6_of(s) {
            Some(groups) => Some(HostValue::V6(groups)),
            None => None,
        },
    }
}

/// True when a text holds a given character.
pub open spec fn holds(s: Seq<char>, c: char) -> bool {
    exists|i: int| 0 <= i < s.len() && s[i] == c
}

/// A text that does not hold the separator is one field.
proof fn lemma_split_without_separator(s: Seq<char>, sep: char)
    requires
        !holds(s, sep),
    ensures
        split(s, sep) == seq![s],
    decreases s.len(),
{
    if s.len() == 0 {
        assert(s =~= Seq::<char>::empty());
    } else {
        let shorter = s.drop_last();
        assert forall|i: int| 0 <= i < shorter.len() implies shorter[i] != sep by {
            assert(s[i] == shorter[i]);
        }
        lemma_split_without_separator(shorter, sep);
        assert(s[s.len() - 1] != sep);
        assert(shorter.push(s.last()) =~= s);
        assert(split(s, sep) =~= seq![s]);
    }
}

/// A character that is not the separator and that no field holds is not in
/// the text.
proof fn lemma_fields_hold_the_rest(s: Seq<char>, sep: char, c: char)
    requires
        c != sep,
        forall|i: int| 0 <= i < split(s, sep).len() ==> !holds(#[trigger] split(s, sep)[i], c),
    ensures
        !holds(s, c),
        split(s, sep).len() >= 1,
    decreases s.len(),
{
    if s.len() > 0 {
        let shorter = s.drop_last();
        let before = split(shorter, sep);
        let fields = split(s, sep);
        if s.last() == sep {
            assert forall|i: int| 0 <= i < before.len() implies !holds(#[trigger] before[i], c) by {
                assert(fields[i] == before[i]);
            }
            lemma_fields_hold_the_rest(shorter, sep, c);
        } else {
            lemma_split_is_never_empty(shorter, sep);
            let last = before.last().push(s.last());
            assert(fields[fields.len() - 1] == last);
            assert forall|i: int| 0 <= i < before.len() implies !holds(#[trigger] before[i], c) by {
                if i < before.len() - 1 {
                    assert(fields[i] == before[i]);
                } else {
                    if holds(before[i], c) {
                        let k = choose|k: int| 0 <= k < before[i].len() && before[i][k] == c;
                        assert(last[k] == c);
                    }
                }
            }
            lemma_fields_hold_the_rest(shorter, sep, c);
            assert(last[last.len() - 1] == s.last());
        }
        if holds(s, c) {
            let k = choose|k: int| 0 <= k < s.len() && s[k] == c;
            if k < s.len() - 1 {
                assert(shorter[k] == c);
            }
        }
    }
}

/// A text has at least one field.
proof fn lemma_split_is_never_empty(s: Seq<char>, sep: char)
    ensures
        split(s, sep).len() >= 1,
    decreases s.len(),
{
    if s.len() > 0 {
        lemma_split_is_never_empty(s.drop_last(), sep);
    }
}

/// The fields of a list written one after the other with the separator
/// between them.
pub open spec fn join(fields: Seq<Seq<char>>, sep: char) -> Seq<char>
    decreases fields.len(),
{
    if fields.len() == 0 {
        Seq::<char>::empty()
    } else if fields.len() == 1 {
        fields[0]
    } else {
        join(fields.drop_last(), sep).push(sep) + fields.last()
    }
}

/// Splitting loses nothing: the fields of a text, joined, are the text.
pub proof fn lemma_join_undoes_split(s: Seq<char>, sep: char)
    ensures
        join(split(s, sep), sep) == s,
    decreases s.len(),
{
    if s.len() == 0 {
        assert(s =~= Seq::<char>::empty());
    } else {
        let shorter = s.drop_last();
        let before = split(shorter, sep);
        lemma_split_is_never_empty(shorter, sep);
        lemma_join_undoes_split(shorter, sep);
        assert(shorter.push(s.last()) =~= s);
        if s.last() == sep {
            let fields = before.push(Seq::<char>::empty());
            assert(fields.drop_last() =~= before);
            assert(join(fields, sep) =~= join(before, sep).push(sep));
        } else {
            let last = before.last().push(s.last());
            let fields = before.drop_last().push(last);
            assert(fields.drop_last() =~= before.drop_last());
            if before.len() == 1 {
                assert(join(fields, sep) == last);
                assert(join(before, sep) == before[0]);
            } else {
                assert(join(fields, sep) =~= (join(before.drop_last(), sep).push(sep)
                    + before.last()).push(s.last()));
            }
        }
    }
}

/// Joining loses nothing: the fields of a text put together from fields that
/// do not hold the separator are those fields.
pub proof fn lemma_split_undoes_join(fields: Seq<Seq<char>>, sep: char)
    requires
        fields.len() >= 1,
        forall|i: int| 0 <= i < fields.len() ==> !holds(#[trigger] fields[i], sep),
    ensures
        split(join(fields, sep), sep) == fields,
    decreases fields.len(),
{
    if fields.len() == 1 {
        lemma_split_without_separator(fields[0], sep);
        assert(fields =~= seq![fields[0]]);
    } else {
        let front = fields.drop_last();
        assert forall|i: int| 0 <= i < front.len() implies !holds(#[trigger] front[i], sep) by {
            assert(front[i] == fields[i]);
        }
        lemma_split_undoes_join(front, sep);
        lemma_split_after_separator(join(front, sep), fields.last(), sep);
        lemma_split_without_separator(fields.last(), sep);
        assert(front + seq![fields.last()] =~= fields);
    }
}

/// The fields of two texts with a separator between them are the fields of
/// the one followed by the fields of the other.
proof fn lemma_split_after_separator(x: Seq<char>, y: Seq<char>, sep: char)
    ensures
        split(x.push(sep) + y, sep) == split(x, sep) + split(y, sep),
    decreases y.len(),
{
    let whole = x.push(sep) + y;
    lemma_split_is_never_empty(x, sep);
    if y.len() == 0 {
        assert(whole =~= x.push(sep));
        assert(whole.drop_last() =~= x);
        assert(split(y, sep) =~= seq![Seq::<char>::empty()]);
        assert(split(whole, sep) =~= split(x, sep) + split(y, sep));
    } else {
        let shorter = y.drop_last();
        lemma_split_after_separator(x, shorter, sep);
        lemma_split_is_never_empty(shorter, sep);
        assert(whole.drop_last() =~= x.push(sep) + shorter);
        assert(whole.last() == y.last());
        assert(split(whole, sep) =~= split(x, sep) + split(y, sep));
    }
}

/// The character of a decimal digit.
pub open spec fn digit_char(d: u8) -> char
    recommends
        d <= 9,
{
    (('0' as u8) + d) as u8 as char
}

/// A number from 0 to 255 as it is written in a dotted quad: in decimal,
/// with as few digits as it takes.
pub open spec fn octet_text(n: u8) -> Seq<char> {
    if n < 10 {
        seq![digit_char(n)]
    } else if n < 100 {
        seq![digit_char(n / 10), digit_char(n % 10)]
    } else {
        seq![digit_char(n / 100), digit_char(n / 10 % 10), digit_char(n % 10)]
    }
}

/// Four numbers written as a dotted quad.
pub open spec fn dotted_quad(octets: Seq<u8>) -> Seq<char>
    recommends
        octets.len() == 4,
{
    join(
        seq![
            octet_text(octets[0]),
            octet_text(octets[1]),
            octet_text(octets[2]),
            octet_text(octets[3]),
        ],
        '.',
    )
}

/// The fields that are read as a number of a dotted quad are exactly the
/// numbers from 0 to 255 as `octet_text` writes them.
pub proof fn lemma_octets_are_written_one_way(field: Seq<char>, n: u8)
    ensures
        is_octet(octet_text(n)),
        decimal_value(octet_text(n)) == n,
        is_octet(field) ==> field == octet_text(decimal_value(field) as u8),
{
    reveal_with_fuel(decimal_value, 4);
    let text = octet_text(n);
    if n < 10 {
        assert(text.drop_last() =~= Seq::<char>::empty());
    } else if n < 100 {
        assert(text.drop_last() =~= seq![digit_char(n / 10)]);
        assert(text.drop_last().drop_last() =~= Seq::<char>::empty());
    } else {
        assert(text.drop_last() =~= seq![digit_char(n / 100), digit_char(n / 10 % 10)]);
        assert(text.drop_last().drop_last() =~= seq![digit_char(n / 100)]);
        assert(text.drop_last().drop_last().drop_last() =~= Seq::<char>::empty());
    }
    if is_octet(field) {
        let v = decimal_value(field);
        if field.len() == 1 {
            assert(field.drop_last() =~= Seq::<char>::empty());
            assert(field =~= octet_text(v as u8));
        } else if field.len() == 2 {
            assert(field.drop_last().drop_last() =~= Seq::<char>::empty());
            assert(is_digit(field[0]) && is_digit(field[1]));
            assert(field =~= octet_text(v as u8));
        } else {
            assert(field.drop_last().drop_last().drop_last() =~= Seq::<char>::empty());
            assert(is_digit(field[0]) && is_digit(field[1]) && is_digit(field[2]));
            assert(field =~= octet_text(v as u8));
        }
    }
}

/// A text spells a dotted quad exactly when it is the four numbers written
/// the one way `dotted_quad` writes them: no other writing of an IPv4
/// address is read.
pub proof fn lemma_dotted_quads_are_written_one_way(s: Seq<char>, octets: Seq<u8>)
    requires
        octets.len() == 4,
    ensures
        ipv4_of(s) == Some(octets) <==> s == dotted_quad(octets),
{
    let texts = seq![
        octet_text(octets[0]),
        octet_text(octets[1]),
        octet_text(octets[2]),
        octet_text(octets[3]),
    ];
    assert forall|i: int| 0 <= i < 4 implies is_octet(#[trigger] texts[i]) && decimal_value(
        texts[i],
    ) == octets[i] by {
        lemma_octets_are_written_one_way(Seq::<char>::empty(), octets[i]);
    }
    if ipv4_of(s) == Some(octets) {
        let fields = split(s, '.');
        assert forall|i: int| 0 <= i < 4 implies fields[i] == texts[i] by {
            lemma_octets_are_written_one_way(fields[i], 0);
            assert(ipv4_of(s).unwrap()[i] == octets[i]);
        }
        assert(fields =~= texts);
        lemma_join_undoes_split(s, '.');
    }
    if s == dotted_quad(octets) {
        assert forall|i: int| 0 <= i < texts.len() implies !holds(#[trigger] texts[i], '.') by {
            if holds(texts[i], '.') {
                let k = choose|k: int| 0 <= k < texts[i].len() && texts[i][k] == '.';
                assert(is_digit(texts[i][k]));
            }
        }
        lemma_split_undoes_join(texts, '.');
        assert(ipv4_of(s).unwrap() =~= octets);
    }
}

/// What a text spells has the size of its kind: four numbers, or eight
/// groups.
pub proof fn lemma_addresses_have_their_size(s: Seq<char>)
    ensures
        ipv4_of(s) matches Some(octets) ==> octets.len() == 4,
        ipv6_of(s) matches Some(groups) ==> groups.len() == 8,
{
}

/// No text spells both a dotted quad and a colon-separated address.
pub proof fn lemma_a_host_is_of_one_kind(s: Seq<char>)
    ensures
        !(ipv4_of(s) is Some && ipv6_of(s) is Some),
{
    if ipv4_of(s) is Some {
        let fields = split(s, '.');
        assert forall|i: int| 0 <= i < fields.len() implies !holds(#[trigger] fields[i], ':') by {
            assert(is_octet(fields[i]));
            if holds(fields[i], ':') {
                let k = choose|k: int| 0 <= k < fields[i].len() && fields[i][k] == ':';
                assert(is_digit(fields[i][k]));
            }
        }
        lemma_fields_hold_the_rest(s, '.', ':');
        assert forall|k: int| !is_gap_at(s, k) by {
            if is_gap_at(s, k) {
                assert(s[k] == ':');
            }
        }
        assert(first_gap(s) is None);
        lemma_split_without_separator(s, ':');
        if s.len() == 0 {
            assert(split(s, '.') =~= seq![Seq::<char>::empty()]);
        } else {
            let colon_fields = split(s, ':');
            assert(colon_fields.drop_last() =~= Seq::<Seq<char>>::empty());
            assert(colon_fields.last() == s);
            if is_group(s) {
                assert forall|i: int| 0 <= i < s.len() implies s[i] != '.' by {
                    assert(is_hex_digit(s[i]));
                }
                lemma_split_without_separator(s, '.');
            }
            assert(group_values(colon_fields.drop_last()) =~= Seq::<u16>::empty());
        }
    }
}

/// Reads an IP address.
pub fn read_host(text: &str) -> (r: Option<HostAddress>)
    ensures
        match r {
            Some(address) => host_of(text@) == Some(address@),
            None => host_of(text@) is None,
        },
{
    let chars = chars_of(text);
    match read_ipv4(&chars) {
        Some(octets) => Some(HostAddress::V4(octets)),
        None => match read_ipv6(&chars) {
            Some(groups) => Some(HostAddress::V6(groups)),
            None => None,
        },
    }
}

} // verus!
