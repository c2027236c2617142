//! Maps of user and group ids for a new user namespace: what a valid table
//! is, how a table is written down and read back, and how it reaches the
//! kernel.

use crate::bytes::{
    decimal, decimal_text, is_digit, lemma_decimal, lemma_read_written, push_decimal,
    push_signed, read_number, signed_decimal, spec_number, texts,
};
use crate::error::{Error, Failure, Step};
use crate::status::ExitStatus;
use vstd::prelude::*;

verus! {

/// The byte of a space.
pub const SPACE: u8 = 32;

/// The byte that ends a line.
pub const NEWLINE: u8 = 10;

/// A range of ids inside a user namespace and the range outside that it
/// stands for: `count` ids from `inside` on are the ids from `outside` on.
#[derive(Clone, Copy, Debug, PartialEq, Eq, Hash, Structural)]
pub struct IdRange {
    /// The first id as the child sees it.
    pub inside: u32,
    /// The first id as the parent's namespace sees it.
    pub outside: u32,
    /// The number of ids.
    pub count: u32,
}

/// A range of user ids.
#[derive(Clone, Copy, Debug, PartialEq, Eq, Hash, Structural)]
pub struct UidMap {
    /// The first user id as the child sees it.
    pub inside_uid: u32,
    /// The first user id as the parent's namespace sees it.
    pub outside_uid: u32,
    /// The number of user ids.
    pub count: u32,
}

/// A range of group ids.
#[derive(Clone, Copy, Debug, PartialEq, Eq, Hash, Structural)]
pub struct GidMap {
    /// The first group id as the child sees it.
    pub inside_gid: u32,
    /// The first group id as the parent's namespace sees it.
    pub outside_gid: u32,
    /// The number of group ids.
    pub count: u32,
}

impl UidMap {
    /// The range as a plain range of ids.
    pub open spec fn spec_range(self) -> IdRange {
        IdRange { inside: self.inside_uid, outside: self.outside_uid, count: self.count }
    }

    /// The range as a plain range of ids.
    pub fn range(&self) -> (range: IdRange)
        ensures
            range == self.spec_range(),
    {
        IdRange { inside: self.inside_uid, outside: self.outside_uid, count: self.count }
    }

    /// The range of user ids that `range` describes.
    pub fn from_range(range: IdRange) -> (map: UidMap)
        ensures
            map.spec_range() == range,
    {
        UidMap { inside_uid: range.inside, outside_uid: range.outside, count: range.count }
    }
}

impl GidMap {
    /// The range as a plain range of ids.
    pub open spec fn spec_range(self) -> IdRange {
        IdRange { inside: self.inside_gid, outside: self.outside_gid, count: self.count }
    }

    /// The range as a plain range of ids.
    pub fn range(&self) -> (range: IdRange)
        ensures
            range == self.spec_range(),
    {
        IdRange { inside: self.inside_gid, outside: self.outside_gid, count: self.count }
    }

    /// The range of group ids that `range` describes.
    pub fn from_range(range: IdRange) -> (map: GidMap)
        ensures
            map.spec_range() == range,
    {
        GidMap { inside_gid: range.inside, outside_gid: range.outside, count: range.count }
    }
}

/// The plain ranges of a table of user ids.
pub open spec fn uid_ranges(maps: Seq<UidMap>) -> Seq<IdRange> {
    Seq::new(maps.len(), |i: int| maps[i].spec_range())
}

/// The plain ranges of a table of group ids.
pub open spec fn gid_ranges(maps: Seq<GidMap>) -> Seq<IdRange> {
    Seq::new(maps.len(), |i: int| maps[i].spec_range())
}

/// The plain ranges of a table of user ids.
pub fn uid_table(maps: &Vec<UidMap>) -> (table: Vec<IdRange>)
    ensures
        table@ == uid_ranges(maps@),
{
    let mut table: Vec<IdRange> = Vec::new();
    let mut i: usize = 0;
    while i < maps.len()
        invariant
            i <= maps.len(),
            table@ == uid_ranges(maps@.take(i as int)),
        decreases maps.len() - i,
    {
        table.push(maps[i].range());
        i = i + 1;
        assert(table@ =~= uid_ranges(maps@.take(i as int)));
    }
    assert(maps@.take(maps.len() as int) =~= maps@);
    table
}

/// The plain ranges of a table of group ids.
pub fn gid_table(maps: &Vec<GidMap>) -> (table: Vec<IdRange>)
    ensures
        table@ == gid_ranges(maps@),
{
    let mut table: Vec<IdRange> = Vec::new();
    let mut i: usize = 0;
    while i < maps.len()
        invariant
            i <= maps.len(),
            table@ == gid_ranges(maps@.take(i as int)),
        decreases maps.len() - i,
    {
        table.push(maps[i].range());
        i = i + 1;
        assert(table@ =~= gid_ranges(maps@.take(i as int)));
    }
    assert(maps@.take(maps.len() as int) =~= maps@);
    table
}

/// Whether a range by itself is well formed: it holds an id, and neither
/// side runs past the greatest id.
pub open spec fn range_ok(range: IdRange) -> bool {
    &&& range.count > 0
    &&& range.inside + range.count <= 0x1_0000_0000
    &&& range.outside + range.count <= 0x1_0000_0000
}

/// Whether `count_a` ids from `a` on and `count_b` ids from `b` on share an
/// id.
pub open spec fn overlap(a: int, count_a: int, b: int, count_b: int) -> bool {
    a < b + count_b && b < a + count_a
}

/// Whether two ranges share no id, neither inside nor outside.
pub open spec fn apart(a: IdRange, b: IdRange) -> bool {
    &&& !overlap(a.inside as int, a.count as int, b.inside as int, b.count as int)
    &&& !overlap(a.outside as int, a.count as int, b.outside as int, b.count as int)
}

/// Whether a table is valid: each range is well formed and no two ranges
/// share an id.
pub open spec fn table_ok(table: Seq<IdRange>) -> bool {
    &&& forall|i: int| 0 <= i < table.len() ==> range_ok(#[trigger] table[i])
    &&& forall|i: int, j: int|
        0 <= i < j < table.len() ==> apart(#[trigger] table[i], #[trigger] table[j])
}

/// Checks a table. An invalid table is answered with the place of the first
/// range that is malformed or shares an id with a range before it.
pub fn check_table(table: &Vec<IdRange>) -> (verdict: Result<(), usize>)
    ensures
        verdict is Ok <==> table_ok(table@),
        verdict matches Err(at) ==> at < table.len() && table_ok(table@.take(at as int))
            && !table_ok(table@.take(at + 1)),
{
    let mut i: usize = 0;
    while i < table.len()
        invariant
            i <= table.len(),
            table_ok(table@.take(i as int)),
        decreases table.len() - i,
    {
        let range = table[i];
        let ghost longer = table@.take(i + 1);
        let well_formed = range.count > 0 && range.inside as u64 + range.count as u64
            <= 0x1_0000_0000 && range.outside as u64 + range.count as u64 <= 0x1_0000_0000;
        if !well_formed {
            assert(longer[i as int] == range);
            proof {
                lemma_not_ok_goes_on(table@, i + 1);
            }
            return Err(i);
        }
        let mut j: usize = 0;
        while j < i
            invariant
                j <= i < table.len(),
                range == table@[i as int],
                longer == table@.take(i + 1),
                table_ok(table@.take(i as int)),
                forall|k: int| 0 <= k < j ==> apart(#[trigger] table@[k], range),
            decreases i - j,
        {
            let other = table[j];
            let inside_shared = (range.inside as u64) < other.inside as u64 + other.count as u64
                && (other.inside as u64) < range.inside as u64 + range.count as u64;
            let outside_shared = (range.outside as u64) < other.outside as u64
                + other.count as u64 && (other.outside as u64) < range.outside as u64
                + range.count as u64;
            if inside_shared || outside_shared {
                assert(longer[j as int] == other && longer[i as int] == range);
                assert(!apart(longer[j as int], longer[i as int]));
                proof {
                    lemma_not_ok_goes_on(table@, i + 1);
                }
                return Err(i);
            }
            j = j + 1;
        }
        assert(table_ok(longer)) by {
            assert forall|k: int| 0 <= k < longer.len() implies range_ok(#[trigger] longer[k]) by {
                if k < i {
                    assert(longer[k] == table@.take(i as int)[k]);
                }
            }
            assert forall|k: int, l: int| 0 <= k < l < longer.len() implies apart(
                #[trigger] longer[k],
                #[trigger] longer[l],
            ) by {
                assert(longer[k] == table@[k]);
                if l < i {
                    assert(longer[k] == table@.take(i as int)[k]);
                    assert(longer[l] == table@.take(i as int)[l]);
                }
            }
        }
        i = i + 1;
    }
    assert(table@.take(table.len() as int) =~= table@);
    Ok(())
}

/// A table whose beginning is invalid is invalid.
pub proof fn lemma_not_ok_goes_on(table: Seq<IdRange>, upto: int)
    requires
        0 <= upto <= table.len(),
        !table_ok(table.take(upto)),
    ensures
        !table_ok(table),
{
    if table_ok(table) {
        let part = table.take(upto);
        assert forall|i: int| 0 <= i < part.len() implies range_ok(#[trigger] part[i]) by {
            assert(part[i] == table[i]);
        }
        assert forall|i: int, j: int| 0 <= i < j < part.len() implies apart(
            #[trigger] part[i],
            #[trigger] part[j],
        ) by {
            assert(part[i] == table[i]);
            assert(part[j] == table[j]);
        }
    }
}

/// The line that stands for a range: the first id inside, the first id
/// outside and the count, each in decimal, with one space between them and
/// a newline at the end.
pub open spec fn line_text(range: IdRange) -> Seq<u8> {
    decimal(range.inside as nat) + seq![SPACE] + decimal(range.outside as nat) + seq![SPACE]
        + decimal(range.count as nat) + seq![NEWLINE]
}

/// The text that stands for a table: the lines of its ranges, in order.
pub open spec fn table_text(table: Seq<IdRange>) -> Seq<u8>
    decreases table.len(),
{
    if table.len() == 0 {
        Seq::<u8>::empty()
    } else {
        line_text(table[0]) + table_text(table.drop_first())
    }
}

/// Writes a table down in the form that the kernel takes for a map of ids.
pub fn render_table(table: &Vec<IdRange>) -> (text: Vec<u8>)
    ensures
        text@ == table_text(table@),
{
    let mut text: Vec<u8> = Vec::new();
    let mut i: usize = 0;
    assert(table@.skip(0) =~= table@);
    while i < table.len()
        invariant
            i <= table.len(),
            text@ + table_text(table@.skip(i as int)) == table_text(table@),
        decreases table.len() - i,
    {
        let range = table[i];
        let ghost before = text@;
        push_decimal(&mut text, range.inside as u64);
        text.push(SPACE);
        push_decimal(&mut text, range.outside as u64);
        text.push(SPACE);
        push_decimal(&mut text, range.count as u64);
        text.push(NEWLINE);
        proof {
            let rest = table@.skip(i as int);
            assert(rest[0] == range);
            assert(rest.drop_first() =~= table@.skip(i + 1));
            assert(text@ =~= before + line_text(range));
            assert(before + line_text(range) + table_text(table@.skip(i + 1)) =~= before + (
            line_text(range) + table_text(table@.skip(i + 1))));
        }
        i = i + 1;
    }
    assert(table@.skip(table.len() as int) =~= Seq::<IdRange>::empty());
    assert(text@ =~= text@ + Seq::<u8>::empty());
    text
}

/// The first place at or after `from` where `text` holds no space; the
/// length of `text` where spaces run to its end.
pub open spec fn spaces_end(text: Seq<u8>, from: int) -> int
    decreases text.len() - from,
{
    if 0 <= from < text.len() && text[from] == SPACE {
        spaces_end(text, from + 1)
    } else {
        from
    }
}

/// The line that starts at `from`, read as a range, and the place after
/// it. A line holds three numbers of at most 32 bits, each written in
/// decimal, with spaces, at least one, between them, and ends in a
/// newline; spaces may stand before the first number and after the last.
/// `None` where no such line starts at `from`.
pub open spec fn spec_line(text: Seq<u8>, from: int) -> Option<(IdRange, int)> {
    let first = spaces_end(text, from);
    match spec_number(text, first) {
        None => None,
        Some((inside, first_end)) => {
            let second = spaces_end(text, first_end);
            match spec_number(text, second) {
                None => None,
                Some((outside, second_end)) => {
                    let third = spaces_end(text, second_end);
                    match spec_number(text, third) {
                        None => None,
                        Some((count, third_end)) => {
                            let last = spaces_end(text, third_end);
                            if second > first_end && third > second_end && last < text.len()
                                && text[last] == NEWLINE {
                                Some((IdRange { inside, outside, count }, last + 1))
                            } else {
                                None
                            }
                        },
                    }
                },
            }
        },
    }
}

/// The table that `text` holds from `from` on: the ranges of its lines, in
/// order. `None` where something other than a line stands there.
pub open spec fn spec_table(text: Seq<u8>, from: int) -> Option<Seq<IdRange>>
    decreases text.len() - from,
{
    if from >= text.len() {
        Some(Seq::<IdRange>::empty())
    } else {
        match spec_line(text, from) {
            None => None,
            Some((range, next)) => {
                if next <= from {
                    None
                } else {
                    match spec_table(text, next) {
                        None => None,
                        Some(rest) => Some(seq![range] + rest),
                    }
                }
            },
        }
    }
}

/// The table that `text` holds, where it holds one.
pub open spec fn spec_parse(text: Seq<u8>) -> Option<Seq<IdRange>> {
    spec_table(text, 0)
}

/// The place of the first byte at or after `from` that is no space.
fn skip_spaces(text: &Vec<u8>, from: usize) -> (end: usize)
    requires
        from <= text.len(),
    ensures
        end == spaces_end(text@, from as int),
        from <= end <= text.len(),
{
    let mut at: usize = from;
    while at < text.len() && text[at] == SPACE
        invariant
            from <= at <= text.len(),
            spaces_end(text@, at as int) == spaces_end(text@, from as int),
        decreases text.len() - at,
    {
        at = at + 1;
    }
    at
}

/// Reads the line that starts at `from`.
pub fn read_line(text: &Vec<u8>, from: usize) -> (line: Option<(IdRange, usize)>)
    requires
        from <= text.len(),
    ensures
        match line {
            Some((range, next)) => spec_line(text@, from as int) == Some((range, next as int))
                && from < next <= text.len(),
            None => spec_line(text@, from as int) is None,
        },
{
    let first = skip_spaces(text, from);
    let (inside, first_end) = match read_number(text, first) {
        Some(number) => number,
        None => {
            return None;
        },
    };
    let second = skip_spaces(text, first_end);
    let (outside, second_end) = match read_number(text, second) {
        Some(number) => number,
        None => {
            return None;
        },
    };
    let third = skip_spaces(text, second_end);
    let (count, third_end) = match read_number(text, third) {
        Some(number) => number,
        None => {
            return None;
        },
    };
    let last = skip_spaces(text, third_end);
    if second > first_end && third > second_end && last < text.len() && text[last] == NEWLINE {
        Some((IdRange { inside, outside, count }, last + 1))
    } else {
        None
    }
}

/// Reads a table back from its text.
pub fn parse_table(text: &Vec<u8>) -> (table: Option<Vec<IdRange>>)
    ensures
        match table {
            Some(ranges) => spec_parse(text@) == Some(ranges@),
            None => spec_parse(text@) is None,
        },
{
    let mut ranges: Vec<IdRange> = Vec::new();
    let mut at: usize = 0;
    while at < text.len()
        invariant
            at <= text.len(),
            match spec_table(text@, at as int) {
                Some(rest) => spec_parse(text@) == Some(ranges@ + rest),
                None => spec_parse(text@) is None,
            },
        decreases text.len() - at,
    {
        match read_line(text, at) {
            None => {
                return None;
            },
            Some((range, next)) => {
                proof {
                    match spec_table(text@, next as int) {
                        Some(rest) => {
                            assert(ranges@ + (seq![range] + rest) =~= ranges@.push(range) + rest);
                        },
                        None => {},
                    }
                }
                ranges.push(range);
                at = next;
            },
        }
    }
    assert(ranges@ + Seq::<IdRange>::empty() =~= ranges@);
    Some(ranges)
}

/// A line that stands in a text is read back as the range it was written
/// from.
pub proof fn lemma_read_line_written(text: Seq<u8>, from: int, range: IdRange)
    requires
        0 <= from,
        from + line_text(range).len() <= text.len(),
        text.subrange(from, from + line_text(range).len()) == line_text(range),
    ensures
        spec_line(text, from) == Some((range, from + line_text(range).len())),
{
    let a = decimal(range.inside as nat);
    let b = decimal(range.outside as nat);
    let c = decimal(range.count as nat);
    let line = line_text(range);
    lemma_decimal(range.inside as nat);
    lemma_decimal(range.outside as nat);
    lemma_decimal(range.count as nat);
    let first = from;
    let first_end = first + a.len();
    let second = first_end + 1;
    let second_end = second + b.len();
    let third = second_end + 1;
    let third_end = third + c.len();
    let la = a.len() as int;
    let lb = b.len() as int;
    let lc = c.len() as int;
    assert(line.len() == la + lb + lc + 3);
    assert forall|i: int| 0 <= i < line.len() implies text[from + i] == #[trigger] line[i] by {
        assert(text.subrange(from, from + line.len())[i] == text[from + i]);
    }
    assert forall|i: int| 0 <= i < la implies line[i] == #[trigger] a[i] by {}
    assert(line[la] == SPACE);
    assert forall|i: int| 0 <= i < lb implies line[la + 1 + i] == #[trigger] b[i] by {}
    assert(line[la + 1 + lb] == SPACE);
    assert forall|i: int| 0 <= i < lc implies line[la + lb + 2 + i]
        == #[trigger] c[i] by {}
    assert(line[la + lb + lc + 2] == NEWLINE);

    // The first number.
    assert(is_digit(a[0]));
    assert(text[first] == line[0]);
    assert(spaces_end(text, from) == first);
    assert(text.subrange(first, first_end) =~= a) by {
        assert forall|i: int| 0 <= i < la implies text.subrange(first, first_end)[i]
            == a[i] by {
            assert(text[from + i] == line[i]);
        }
    }
    assert(text[first_end] == line[la]);
    lemma_read_written(text, first, range.inside);

    // The second number.
    assert(is_digit(b[0]));
    assert(text[second] == line[la + 1 + 0]);
    assert(spaces_end(text, first_end) == second) by {
        assert(spaces_end(text, second) == second);
    }
    assert(text.subrange(second, second_end) =~= b) by {
        assert forall|i: int| 0 <= i < lb implies text.subrange(second, second_end)[i]
            == b[i] by {
            assert(text[from + (la + 1 + i)] == line[la + 1 + i]);
        }
    }
    assert(text[second_end] == line[la + 1 + lb]);
    lemma_read_written(text, second, range.outside);

    // The third number.
    assert(is_digit(c[0]));
    assert(text[third] == line[la + lb + 2 + 0]);
    assert(spaces_end(text, second_end) == third) by {
        assert(spaces_end(text, third) == third);
    }
    assert(text.subrange(third, third_end) =~= c) by {
        assert forall|i: int| 0 <= i < lc implies text.subrange(third, third_end)[i]
            == c[i] by {
            assert(text[from + (la + lb + 2 + i)] == line[la + lb + 2 + i]);
        }
    }
    assert(text[third_end] == line[la + lb + lc + 2]);
    lemma_read_written(text, third, range.count);
    assert(spaces_end(text, third_end) == third_end);
}

/// A table that stands at the end of a text is read back as it was
/// written.
pub proof fn lemma_read_table_written(text: Seq<u8>, from: int, table: Seq<IdRange>)
    requires
        0 <= from <= text.len(),
        text.subrange(from, text.len() as int) == table_text(table),
    ensures
        spec_table(text, from) == Some(table),
    decreases table.len(),
{
    if table.len() == 0 {
        assert(table =~= Seq::<IdRange>::empty());
    } else {
        let line = line_text(table[0]);
        let rest = table_text(table.drop_first());
        let tail = text.subrange(from, text.len() as int);
        lemma_decimal(table[0].inside as nat);
        assert(tail == line + rest);
        assert(tail.len() == line.len() + rest.len());
        let next = from + line.len();
        assert(text.subrange(from, next) =~= line) by {
            assert forall|i: int| 0 <= i < line.len() implies text.subrange(from, next)[i]
                == line[i] by {
                assert(tail[i] == line[i]);
            }
        }
        assert(text.subrange(next, text.len() as int) =~= rest) by {
            assert forall|i: int| 0 <= i < rest.len() implies text.subrange(
                next,
                text.len() as int,
            )[i] == rest[i] by {
                assert(tail[line.len() + i] == rest[i]);
            }
        }
        lemma_read_line_written(text, from, table[0]);
        lemma_read_table_written(text, next, table.drop_first());
        assert(seq![table[0]] + table.drop_first() =~= table);
    }
}

/// Writing a table down and reading it back gives the same ranges in the
/// same order.
pub proof fn lemma_parse_rendered(table: Seq<IdRange>)
    ensures
        spec_parse(table_text(table)) == Some(table),
{
    let text = table_text(table);
    assert(text.subrange(0, text.len() as int) =~= text);
    lemma_read_table_written(text, 0, table);
}

/// How a table reaches the kernel.
#[derive(Clone, Copy, Debug, PartialEq, Eq, Hash, Structural)]
pub enum MapStrategy {
    /// The parent writes the table to the child's map itself.
    Direct,
    /// The parent runs a helper program that writes the table.
    Helper,
}

/// Chooses how a table reaches the kernel. A parent that holds the
/// privilege to write the map does so; one that does not runs the helper
/// program, if the caller named one, and else makes the one attempt that is
/// left to it, the direct one, whose failure is then reported.
pub fn select_strategy(privileged: bool, helper_named: bool) -> (strategy: MapStrategy)
    ensures
        strategy == (if !privileged && helper_named {
            MapStrategy::Helper
        } else {
            MapStrategy::Direct
        }),
{
    if !privileged && helper_named {
        MapStrategy::Helper
    } else {
        MapStrategy::Direct
    }
}

/// The arguments of a helper program, after its name: the child's process
/// id, then for each range its first id inside, its first id outside and
/// its count, all in decimal.
pub open spec fn helper_words(pid: nat, table: Seq<IdRange>) -> Seq<Seq<u8>>
    decreases table.len(),
{
    if table.len() == 0 {
        seq![decimal(pid)]
    } else {
        helper_words(pid, table.drop_last()) + seq![
            decimal(table.last().inside as nat),
            decimal(table.last().outside as nat),
            decimal(table.last().count as nat),
        ]
    }
}

/// The arguments with which a helper program is run to write `table` to
/// the map of the process `pid`.
pub fn helper_args(pid: u32, table: &Vec<IdRange>) -> (args: Vec<Vec<u8>>)
    ensures
        texts(args@) == helper_words(pid as nat, table@),
{
    let mut args: Vec<Vec<u8>> = Vec::new();
    args.push(decimal_text(pid as u64));
    assert(texts(args@) =~= helper_words(pid as nat, table@.take(0)));
    let mut i: usize = 0;
    while i < table.len()
        invariant
            i <= table.len(),
            texts(args@) == helper_words(pid as nat, table@.take(i as int)),
        decreases table.len() - i,
    {
        let range = table[i];
        args.push(decimal_text(range.inside as u64));
        args.push(decimal_text(range.outside as u64));
        args.push(decimal_text(range.count as u64));
        proof {
            let longer = table@.take(i + 1);
            assert(longer.drop_last() =~= table@.take(i as int));
            assert(longer.last() == range);
            assert(texts(args@) =~= helper_words(pid as nat, longer));
        }
        i = i + 1;
    }
    assert(table@.take(table.len() as int) =~= table@);
    args
}

/// The text `exit `, with which the end of a helper program by exit is
/// described.
pub open spec fn exit_label() -> Seq<u8> {
    seq![101u8, 120u8, 105u8, 116u8, 32u8]
}

/// The text `signal `, with which the end of a helper program by a signal
/// is described.
pub open spec fn signal_label() -> Seq<u8> {
    seq![115u8, 105u8, 103u8, 110u8, 97u8, 108u8, 32u8]
}

/// What the end of a helper program means for the launch: nothing where it
/// exited with zero; else a failure that says how it ended.
pub open spec fn spec_helper_verdict(status: ExitStatus) -> Option<Failure> {
    match status {
        ExitStatus::Exited(code) => if code == 0 {
            None
        } else {
            Some(
                Failure {
                    step: Step::IdMapHelperExit,
                    errno: 0,
                    detail: Some(exit_label() + signed_decimal(code as int)),
                },
            )
        },
        ExitStatus::Signaled(signal, _) => Some(
            Failure {
                step: Step::IdMapHelperExit,
                errno: 0,
                detail: Some(signal_label() + signed_decimal(signal as int)),
            },
        ),
    }
}

/// Judges the end of a helper program.
pub fn helper_verdict(status: ExitStatus) -> (verdict: Result<(), Error>)
    ensures
        match verdict {
            Ok(()) => spec_helper_verdict(status) is None,
            Err(err) => spec_helper_verdict(status) == Some(err@),
        },
{
    match status {
        ExitStatus::Exited(code) => {
            if code == 0 {
                Ok(())
            } else {
                let mut text: Vec<u8> = vec![101u8, 120u8, 105u8, 116u8, 32u8];
                assert(text@ =~= exit_label());
                push_signed(&mut text, code);
                Err(Error::with_detail(Step::IdMapHelperExit, 0, text))
            }
        },
        ExitStatus::Signaled(signal, _) => {
            let mut text: Vec<u8> = vec![115u8, 105u8, 103u8, 110u8, 97u8, 108u8, 32u8];
            assert(text@ =~= signal_label());
            push_signed(&mut text, signal);
            Err(Error::with_detail(Step::IdMapHelperExit, 0, text))
        },
    }
}

/// Writes a map of user ids down in the form that the kernel takes.
pub fn render_uid_map(maps: &Vec<UidMap>) -> (text: Vec<u8>)
    ensures
        text@ == table_text(uid_ranges(maps@)),
{
    let table = uid_table(maps);
    render_table(&table)
}

/// Writes a map of group ids down in the form that the kernel takes.
pub fn render_gid_map(maps: &Vec<GidMap>) -> (text: Vec<u8>)
    ensures
        text@ == table_text(gid_ranges(maps@)),
{
    let table = gid_table(maps);
    render_table(&table)
}

/// Reads a map of user ids back from its text.
pub fn parse_uid_map(text: &Vec<u8>) -> (maps: Option<Vec<UidMap>>)
    ensures
        match maps {
            Some(list) => spec_parse(text@) == Some(uid_ranges(list@)),
            None => spec_parse(text@) is None,
        },
{
    let table = match parse_table(text) {
        Some(table) => table,
        None => {
            return None;
        },
    };
    let mut list: Vec<UidMap> = Vec::new();
    let mut i: usize = 0;
    while i < table.len()
        invariant
            i <= table.len(),
            list.len() == i,
            uid_ranges(list@) == table@.take(i as int),
        decreases table.len() - i,
    {
        let ghost before = list@;
        list.push(UidMap::from_range(table[i]));
        i = i + 1;
        proof {
            let ranges = uid_ranges(list@);
            assert(ranges.len() == i);
            assert forall|k: int| 0 <= k < i implies ranges[k] == table@[k] by {
                if k < i - 1 {
                    assert(list@[k] == before[k]);
                    assert(uid_ranges(before)[k] == table@.take(i - 1)[k]);
                }
            }
            assert(ranges =~= table@.take(i as int));
        }
    }
    assert(table@.take(table.len() as int) =~= table@);
    Some(list)
}

/// Reads a map of group ids back from its text.
pub fn parse_gid_map(text: &Vec<u8>) -> (maps: Option<Vec<GidMap>>)
    ensures
        match maps {
            Some(list) => spec_parse(text@) == Some(gid_ranges(list@)),
            None => spec_parse(text@) is None,
        },
{
    let table = match parse_table(text) {
        Some(table) => table,
        None => {
            return None;
        },
    };
    let mut list: Vec<GidMap> = Vec::new();
    let mut i: usize = 0;
    while i < table.len()
        invariant
            i <= table.len(),
            list.len() == i,
            gid_ranges(list@) == table@.take(i as int),
        decreases table.len() - i,
    {
        let ghost before = list@;
        list.push(GidMap::from_range(table[i]));
        i = i + 1;
        proof {
            let ranges = gid_ranges(list@);
            assert(ranges.len() == i);
            assert forall|k: int| 0 <= k < i implies ranges[k] == table@[k] by {
                if k < i - 1 {
                    assert(list@[k] == before[k]);
                    assert(gid_ranges(before)[k] == table@.take(i - 1)[k]);
                }
            }
            assert(ranges =~= table@.take(i as int));
        }
    }
    assert(table@.take(table.len() as int) =~= table@);
    Some(list)
}

/// A map of user ids that is written down and read back is the map that
/// was written: where `text` is what `render_uid_map` makes of `written`
/// and `read` is what `parse_uid_map` makes of `text`, the reading succeeds
/// and gives the same ranges in the same order.
pub proof fn lemma_uid_map_round_trip(
    written: Seq<UidMap>,
    text: Seq<u8>,
    read: Option<Seq<UidMap>>,
)
    requires
        text == table_text(uid_ranges(written)),
        match read {
            Some(list) => spec_parse(text) == Some(uid_ranges(list)),
            None => spec_parse(text) is None,
        },
    ensures
        read == Some(written),
{
    lemma_parse_rendered(uid_ranges(written));
    let list = read.unwrap();
    assert(uid_ranges(list) == uid_ranges(written));
    assert(list.len() == written.len());
    assert forall|i: int| 0 <= i < list.len() implies list[i] == written[i] by {
        assert(uid_ranges(list)[i] == uid_ranges(written)[i]);
    }
    assert(list =~= written);
}

/// A map of group ids that is written down and read back is the map that
/// was written: where `text` is what `render_gid_map` makes of `written`
/// and `read` is what `parse_gid_map` makes of `text`, the reading succeeds
/// and gives the same ranges in the same order.
pub proof fn lemma_gid_map_round_trip(
    written: Seq<GidMap>,
    text: Seq<u8>,
    read: Option<Seq<GidMap>>,
)
    requires
        text == table_text(gid_ranges(written)),
        match read {
            Some(list) => spec_parse(text) == Some(gid_ranges(list)),
            None => spec_parse(text) is None,
        },
    ensures
        read == Some(written),
{
    lemma_parse_rendered(gid_ranges(written));
    let list = read.unwrap();
    assert(gid_ranges(list) == gid_ranges(written));
    assert(list.len() == written.len());
    assert forall|i: int| 0 <= i < list.len() implies list[i] == written[i] by {
        assert(gid_ranges(list)[i] == gid_ranges(written)[i]);
    }
    assert(list =~= written);
}

} // verus!
