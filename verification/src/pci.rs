//! The parser of verbose device listings: blocks of `Key: value` lines, one
//! block per device, with a blank line between each two.
//!
//! Parsing never fails. A block that says nothing that the parser knows
//! still gives a record, with every number zero and every text empty.

use crate::number::{byte_of, parse_byte, Radix};
use crate::text::{
    chars_of, find, first_occurrence, is_text, join_words, joined, lemma_first_occurrence_exists,
    lemma_first_occurrence_is, lemma_occurs_at_skip, lemma_split_concat, lemma_split_whole,
    occurs, occurs_at, split, split_at, string_of, views, words, words_of, Delimiter,
};
use vstd::prelude::*;
use vstd::slice::slice_subrange;

verus! {

/// One device of a listing.
#[derive(Clone, Debug)]
pub struct PciDevice {
    pub bus: u8,
    pub device: u8,
    pub function: u8,
    pub class: String,
    pub vendor: String,
    pub device_name: String,
    pub svendor: String,
    pub sdevice: String,
    pub iommugroup: u8,
}

/// What a `PciDevice` holds, its texts as character sequences.
pub struct PciDeviceView {
    pub bus: u8,
    pub device: u8,
    pub function: u8,
    pub class: Seq<char>,
    pub vendor: Seq<char>,
    pub device_name: Seq<char>,
    pub svendor: Seq<char>,
    pub sdevice: Seq<char>,
    pub iommugroup: u8,
}

impl View for PciDevice {
    type V = PciDeviceView;

    open spec fn view(&self) -> PciDeviceView {
        PciDeviceView {
            bus: self.bus,
            device: self.device,
            function: self.function,
            class: self.class@,
            vendor: self.vendor@,
            device_name: self.device_name@,
            svendor: self.svendor@,
            sdevice: self.sdevice@,
            iommugroup: self.iommugroup,
        }
    }
}

impl PciDeviceView {
    /// The record of a block that says nothing: every number zero, every
    /// text empty.
    pub open spec fn blank() -> PciDeviceView {
        PciDeviceView {
            bus: 0,
            device: 0,
            function: 0,
            class: Seq::empty(),
            vendor: Seq::empty(),
            device_name: Seq::empty(),
            svendor: Seq::empty(),
            sdevice: Seq::empty(),
            iommugroup: 0,
        }
    }
}

impl Default for PciDevice {
    fn default() -> (out: PciDevice)
        ensures
            out@ == PciDeviceView::blank(),
    {
        PciDevice {
            bus: 0,
            device: 0,
            function: 0,
            class: String::new(),
            vendor: String::new(),
            device_name: String::new(),
            svendor: String::new(),
            sdevice: String::new(),
            iommugroup: 0,
        }
    }
}

/// The views of a sequence of devices, in order.
pub open spec fn device_views(devices: Seq<PciDevice>) -> Seq<PciDeviceView> {
    Seq::new(devices.len(), |i: int| devices[i]@)
}

/// The byte that `text` writes in the base `radix`, zero where it writes
/// none.
pub open spec fn byte_or_zero(text: Seq<char>, radix: Radix) -> u8 {
    match byte_of(text, radix) {
        Some(b) => b,
        None => 0,
    }
}

/// `dev` after a `Slot:` line with the value `value`. The value is cut at
/// every `.` and `:`; with three parts or more, the first three are read in
/// base sixteen as bus, device and function, each zero where it cannot be
/// read. With fewer parts the line changes nothing.
pub open spec fn with_slot(dev: PciDeviceView, value: Seq<char>) -> PciDeviceView {
    let parts = split(value, Delimiter::SlotPunctuation);
    if parts.len() >= 3 {
        PciDeviceView {
            bus: byte_or_zero(parts[0], Radix::Hexadecimal),
            device: byte_or_zero(parts[1], Radix::Hexadecimal),
            function: byte_or_zero(parts[2], Radix::Hexadecimal),
            ..dev
        }
    } else {
        dev
    }
}

/// Whether `key` is one of the keys that the parser knows.
pub open spec fn is_known_key(key: Seq<char>) -> bool {
    ||| key == "Slot:"@
    ||| key == "Class:"@
    ||| key == "Vendor:"@
    ||| key == "Device:"@
    ||| key == "SVendor:"@
    ||| key == "SDevice:"@
    ||| key == "IOMMUGroup:"@
}

/// `dev` after the field `key` has been given the value `value`. A key that
/// the parser does not know changes nothing.
pub open spec fn with_field(dev: PciDeviceView, key: Seq<char>, value: Seq<char>) -> PciDeviceView {
    if key == "Slot:"@ {
        with_slot(dev, value)
    } else if key == "Class:"@ {
        PciDeviceView { class: value, ..dev }
    } else if key == "Vendor:"@ {
        PciDeviceView { vendor: value, ..dev }
    } else if key == "Device:"@ {
        PciDeviceView { device_name: value, ..dev }
    } else if key == "SVendor:"@ {
        PciDeviceView { svendor: value, ..dev }
    } else if key == "SDevice:"@ {
        PciDeviceView { sdevice: value, ..dev }
    } else if key == "IOMMUGroup:"@ {
        PciDeviceView { iommugroup: byte_or_zero(value, Radix::Decimal), ..dev }
    } else {
        dev
    }
}

/// `dev` after the line `line`. The first word of the line is its key, the
/// other words, with one space between each two, are its value. A line of
/// fewer than two words changes nothing.
pub open spec fn with_line(dev: PciDeviceView, line: Seq<char>) -> PciDeviceView {
    let w = words(line);
    if w.len() >= 2 {
        with_field(dev, w[0], joined(w.skip(1)))
    } else {
        dev
    }
}

/// `dev` after the lines of `lines`, from the first to the last.
pub open spec fn with_lines(dev: PciDeviceView, lines: Seq<Seq<char>>) -> PciDeviceView
    decreases lines.len(),
{
    if lines.len() == 0 {
        dev
    } else {
        with_line(with_lines(dev, lines.drop_last()), lines.last())
    }
}

/// The record of the block `block`: the blank record after the lines of the
/// block.
pub open spec fn device_of(block: Seq<char>) -> PciDeviceView {
    with_lines(PciDeviceView::blank(), split(block, Delimiter::Newline))
}

/// `text` without the line feeds at its end.
pub open spec fn trimmed(text: Seq<char>) -> Seq<char>
    decreases text.len(),
{
    if text.len() > 0 && text.last() == '\n' {
        trimmed(text.drop_last())
    } else {
        text
    }
}

/// The blank line that stands between two blocks: two line feeds.
pub open spec fn blank_line() -> Seq<char> {
    seq!['\n', '\n']
}

/// The blocks of `text`: the pieces into which its blank lines cut it, from
/// the left. There is always one block at least.
pub open spec fn blocks(text: Seq<char>) -> Seq<Seq<char>>
    decreases text.len(),
{
    match first_occurrence(text, blank_line()) {
        Some(i) => seq![text.take(i)] + blocks(text.skip(i + 2)),
        None => seq![text],
    }
}

/// The records of the listing `text`: one for each block of the text without
/// the line feeds at its end, in the order of the blocks.
pub open spec fn listing(text: Seq<char>) -> Seq<PciDeviceView> {
    let b = blocks(trimmed(text));
    Seq::new(b.len(), |i: int| device_of(b[i]))
}

/// Reads the value of a `Slot:` line into `dev`.
fn set_slot(dev: &mut PciDevice, value: &[char])
    ensures
        final(dev)@ == with_slot(old(dev)@, value@),
{
    let parts = split_at(value, Delimiter::SlotPunctuation);
    if parts.len() >= 3 {
        assert(views(parts@)[0] == parts@[0]@);
        assert(views(parts@)[1] == parts@[1]@);
        assert(views(parts@)[2] == parts@[2]@);
        dev.bus = byte_or_default(parts[0], Radix::Hexadecimal);
        dev.device = byte_or_default(parts[1], Radix::Hexadecimal);
        dev.function = byte_or_default(parts[2], Radix::Hexadecimal);
    }
}

/// The byte that `text` writes in the base `radix`, zero where it writes
/// none.
pub fn byte_or_default(text: &[char], radix: Radix) -> (b: u8)
    ensures
        b == byte_or_zero(text@, radix),
{
    match parse_byte(text, radix) {
        Some(b) => b,
        None => 0,
    }
}

/// Gives the field `key` of `dev` the value `value`.
fn set_field(dev: &mut PciDevice, key: &[char], value: &[char])
    ensures
        final(dev)@ == with_field(old(dev)@, key@, value@),
{
    if is_text(key, "Slot:") {
        set_slot(dev, value);
    } else if is_text(key, "Class:") {
        dev.class = string_of(value);
    } else if is_text(key, "Vendor:") {
        dev.vendor = string_of(value);
    } else if is_text(key, "Device:") {
        dev.device_name = string_of(value);
    } else if is_text(key, "SVendor:") {
        dev.svendor = string_of(value);
    } else if is_text(key, "SDevice:") {
        dev.sdevice = string_of(value);
    } else if is_text(key, "IOMMUGroup:") {
        dev.iommugroup = byte_or_default(value, Radix::Decimal);
    }
}

/// Reads the line `line` into `dev`.
fn set_line(dev: &mut PciDevice, line: &[char])
    ensures
        final(dev)@ == with_line(old(dev)@, line@),
{
    let w = words_of(line);
    if w.len() >= 2 {
        let rest = slice_subrange(w.as_slice(), 1, w.len());
        assert(views(rest@) == views(w@).skip(1));
        assert(views(w@)[0] == w@[0]@);
        let value = join_words(rest);
        set_field(dev, w[0], value.as_slice());
    }
}

/// The record of one block of a listing.
pub fn parse_device(block: &[char]) -> (dev: PciDevice)
    ensures
        dev@ == device_of(block@),
{
    let lines = split_at(block, Delimiter::Newline);
    let ghost all = views(lines@);
    let mut dev = PciDevice::default();
    let mut i: usize = 0;
    assert(all.take(0) == Seq::<Seq<char>>::empty());
    while i < lines.len()
        invariant
            i <= lines.len(),
            all == views(lines@),
            dev@ == with_lines(PciDeviceView::blank(), all.take(i as int)),
        decreases lines.len() - i,
    {
        proof {
            assert(all.take(i + 1).drop_last() == all.take(i as int));
            assert(all.take(i + 1).last() == lines@[i as int]@);
        }
        set_line(&mut dev, lines[i]);
        i += 1;
    }
    assert(all.take(i as int) == all);
    dev
}

/// The number of characters of `text` before the line feeds at its end.
pub fn trimmed_len(text: &[char]) -> (end: usize)
    ensures
        end <= text.len(),
        text@.take(end as int) == trimmed(text@),
{
    let mut end: usize = text.len();
    assert(text@.take(end as int) == text@);
    while end > 0 && text[end - 1] == '\n'
        invariant
            end <= text.len(),
            trimmed(text@.take(end as int)) == trimmed(text@),
        decreases end,
    {
        assert(text@.take(end as int).drop_last() == text@.take(end - 1));
        end -= 1;
    }
    end
}

/// Parses a verbose device listing into one record for each of its blocks,
/// in the order of the blocks.
pub fn parse_pci_devices(text: &str) -> (devices: Vec<PciDevice>)
    ensures
        device_views(devices@) == listing(text@),
{
    let chars = chars_of(text);
    let end: usize = trimmed_len(chars.as_slice());
    let body = slice_subrange(chars.as_slice(), 0, end);
    assert(body@ == trimmed(text@));
    let separator: [char; 2] = ['\n', '\n'];
    assert(separator@ == blank_line());
    let mut devices: Vec<PciDevice> = Vec::new();
    let ghost mut done: Seq<Seq<char>> = Seq::empty();
    let mut pos: usize = 0;
    assert(body@.skip(0) == body@);
    loop
        invariant
            pos <= body.len(),
            body@ == trimmed(text@),
            separator@ == blank_line(),
            blocks(body@) == done + blocks(body@.skip(pos as int)),
            devices.len() == done.len(),
            forall|j: int| 0 <= j < done.len() ==> (#[trigger] devices@[j])@ == device_of(done[j]),
        decreases body.len() - pos,
    {
        let ghost rest = body@.skip(pos as int);
        match find(body, separator.as_slice(), pos) {
            Some(k) => {
                proof {
                    assert forall|j: int| 0 <= j < k - pos implies !occurs_at(
                        rest,
                        blank_line(),
                        j,
                    ) by {
                        lemma_occurs_at_skip(body@, blank_line(), pos as int, j);
                    }
                    lemma_occurs_at_skip(body@, blank_line(), pos as int, k - pos);
                    lemma_first_occurrence_is(rest, blank_line(), k - pos);
                    assert(rest.take(k - pos) == body@.subrange(pos as int, k as int));
                    assert(rest.skip(k - pos + 2) == body@.skip(k + 2));
                }
                devices.push(parse_device(slice_subrange(body, pos, k)));
                proof {
                    done = done.push(rest.take(k - pos));
                }
                pos = k + 2;
            },
            None => {
                proof {
                    assert forall|j: int| !occurs_at(rest, blank_line(), j) by {
                        if 0 <= j {
                            lemma_occurs_at_skip(body@, blank_line(), pos as int, j);
                        }
                    }
                    assert(first_occurrence(rest, blank_line()) is None);
                    assert(rest == body@.subrange(pos as int, body.len() as int));
                }
                devices.push(parse_device(slice_subrange(body, pos, body.len())));
                proof {
                    done = done.push(rest);
                    assert(blocks(body@) == done);
                    assert(device_views(devices@) == listing(text@));
                }
                return devices;
            },
        }
    }
}

/// The parser gives one record for each block of the text without the line
/// feeds at its end, and the records stand in the order of their blocks.
pub proof fn lemma_one_record_per_block(text: Seq<char>)
    ensures
        listing(text).len() == blocks(trimmed(text)).len(),
        listing(text).len() >= 1,
        forall|i: int|
            0 <= i < listing(text).len() ==> #[trigger] listing(text)[i] == device_of(
                blocks(trimmed(text))[i],
            ),
{
    lemma_blocks_not_empty(trimmed(text));
}

/// A text has one block at least.
pub proof fn lemma_blocks_not_empty(text: Seq<char>)
    ensures
        blocks(text).len() >= 1,
{
}

/// `n` line feeds.
pub open spec fn line_feeds(n: nat) -> Seq<char> {
    Seq::new(n, |i: int| '\n')
}

/// Line feeds at the end of a text do not change what is left of it without
/// them.
pub proof fn lemma_trimmed_ignores_line_feeds(text: Seq<char>, n: nat)
    ensures
        trimmed(text + line_feeds(n)) == trimmed(text),
    decreases n,
{
    if n == 0 {
        assert(text + line_feeds(0) == text);
    } else {
        let longer = text + line_feeds(n);
        assert(longer.last() == '\n');
        assert(longer.drop_last() == text + line_feeds((n - 1) as nat));
        lemma_trimmed_ignores_line_feeds(text, (n - 1) as nat);
    }
}

/// Line feeds at the end of a listing change none of its records and add
/// none: there is no empty record for them.
pub proof fn lemma_trailing_line_feeds_add_nothing(text: Seq<char>, n: nat)
    ensures
        listing(text + line_feeds(n)) == listing(text),
{
    lemma_trimmed_ignores_line_feeds(text, n);
}

/// Whether `b` can stand as a block of a listing: it holds a character, does
/// not end in a line feed, and holds no blank line.
pub open spec fn is_block(b: Seq<char>) -> bool {
    &&& b.len() > 0
    &&& b.last() != '\n'
    &&& !occurs(b, blank_line())
}

/// The blocks of `bs` written one after the other with a blank line between
/// each two.
pub open spec fn blocks_joined(bs: Seq<Seq<char>>) -> Seq<char>
    decreases bs.len(),
{
    if bs.len() == 0 {
        Seq::empty()
    } else if bs.len() == 1 {
        bs[0]
    } else {
        bs[0] + blank_line() + blocks_joined(bs.skip(1))
    }
}

/// A text that holds no blank line is one block.
pub proof fn lemma_blocks_whole(b: Seq<char>)
    requires
        !occurs(b, blank_line()),
    ensures
        blocks(b) == seq![b],
{
    lemma_first_occurrence_exists(b, blank_line());
}

/// A block, a blank line and more text: the first block of the whole is that
/// block, and the other blocks are those of the text after the blank line.
pub proof fn lemma_blocks_head(b: Seq<char>, rest: Seq<char>)
    requires
        !occurs(b, blank_line()),
        b.len() == 0 || b.last() != '\n',
    ensures
        blocks(b + blank_line() + rest) == seq![b] + blocks(rest),
{
    let sep = blank_line();
    let s = b + sep + rest;
    let n = b.len() as int;
    assert(s.subrange(n, n + 2) == sep);
    assert forall|j: int| 0 <= j < n implies !occurs_at(s, sep, j) by {
        if occurs_at(s, sep, j) {
            assert(s.subrange(j, j + 2)[0] == sep[0]);
            assert(s.subrange(j, j + 2)[1] == sep[1]);
            if j + 1 < n {
                assert(b.subrange(j, j + 2) == sep);
                assert(occurs_at(b, sep, j));
            } else {
                assert(b.last() == s[j]);
            }
        }
    }
    lemma_first_occurrence_is(s, sep, n);
    assert(s.take(n) == b);
    assert(s.skip(n + 2) == rest);
}

/// Blocks written with a blank line between each two are read back as they
/// were written.
pub proof fn lemma_blocks_of_joined(bs: Seq<Seq<char>>)
    requires
        bs.len() >= 1,
        forall|k: int| 0 <= k < bs.len() ==> is_block(#[trigger] bs[k]),
    ensures
        blocks(blocks_joined(bs)) == bs,
        blocks_joined(bs).len() > 0,
        blocks_joined(bs).last() != '\n',
    decreases bs.len(),
{
    assert(is_block(bs[0]));
    if bs.len() == 1 {
        lemma_blocks_whole(bs[0]);
        assert(bs == seq![bs[0]]);
    } else {
        let rest = bs.skip(1);
        assert forall|k: int| 0 <= k < rest.len() implies is_block(#[trigger] rest[k]) by {
            assert(rest[k] == bs[k + 1]);
        }
        lemma_blocks_of_joined(rest);
        lemma_blocks_head(bs[0], blocks_joined(rest));
        assert(seq![bs[0]] + rest == bs);
        assert(blocks_joined(bs).last() == blocks_joined(rest).last());
    }
}

/// The blocks of a text, written with a blank line between each two, are the
/// text: cutting a text into blocks loses nothing of it.
pub proof fn lemma_blocks_rejoin(text: Seq<char>)
    ensures
        blocks_joined(blocks(text)) == text,
    decreases text.len(),
{
    lemma_first_occurrence_exists(text, blank_line());
    match first_occurrence(text, blank_line()) {
        Some(i) => {
            let rest = text.skip(i + 2);
            let bs = blocks(text);
            lemma_blocks_rejoin(rest);
            lemma_blocks_not_empty(rest);
            assert(bs[0] == text.take(i));
            assert(bs.skip(1) == blocks(rest));
            assert(text.subrange(i, i + 2) == blank_line());
            assert(text.take(i) + blank_line() + rest == text);
        },
        None => {},
    }
}

/// A listing written as blocks with a blank line between each two, and any
/// number of line feeds after the last, gives one record for each block, in
/// the order of the blocks.
pub proof fn lemma_listing_of_blocks(bs: Seq<Seq<char>>, n: nat)
    requires
        bs.len() >= 1,
        forall|k: int| 0 <= k < bs.len() ==> is_block(#[trigger] bs[k]),
    ensures
        listing(blocks_joined(bs) + line_feeds(n)).len() == bs.len(),
        forall|k: int|
            0 <= k < bs.len() ==> #[trigger] listing(blocks_joined(bs) + line_feeds(n))[k]
                == device_of(bs[k]),
{
    lemma_blocks_of_joined(bs);
    lemma_trimmed_ignores_line_feeds(blocks_joined(bs), n);
}

/// A line whose first word is no known key, or that has fewer than two
/// words, changes no field.
pub proof fn lemma_unknown_key_changes_nothing(dev: PciDeviceView, line: Seq<char>)
    requires
        words(line).len() < 2 || !is_known_key(words(line)[0]),
    ensures
        with_line(dev, line) == dev,
{
}

/// Reading lines one list after another is reading the two lists as one.
pub proof fn lemma_with_lines_concat(dev: PciDeviceView, xs: Seq<Seq<char>>, ys: Seq<Seq<char>>)
    ensures
        with_lines(dev, xs + ys) == with_lines(with_lines(dev, xs), ys),
    decreases ys.len(),
{
    if ys.len() == 0 {
        assert(xs + ys == xs);
    } else {
        assert((xs + ys).drop_last() == xs + ys.drop_last());
        assert((xs + ys).last() == ys.last());
        lemma_with_lines_concat(dev, xs, ys.drop_last());
    }
}

/// A line with an unknown key, wherever it stands in a block, changes
/// nothing of the block's record: the record is that of the block without
/// the line.
pub proof fn lemma_unknown_line_is_ignored(before: Seq<char>, line: Seq<char>, after: Seq<char>)
    requires
        forall|i: int| 0 <= i < line.len() ==> #[trigger] line[i] != '\n',
        words(line).len() < 2 || !is_known_key(words(line)[0]),
    ensures
        device_of(before + seq!['\n'] + line + seq!['\n'] + after) == device_of(
            before + seq!['\n'] + after,
        ),
{
    let d = Delimiter::Newline;
    let blank = PciDeviceView::blank();
    let head = split(before, d);
    let tail = split(after, d);
    lemma_split_whole(line, d);
    lemma_split_concat(line, '\n', after, d);
    assert(before + seq!['\n'] + line + seq!['\n'] + after == before + seq!['\n'] + (line + seq![
        '\n',
    ] + after));
    lemma_split_concat(before, '\n', line + seq!['\n'] + after, d);
    lemma_split_concat(before, '\n', after, d);
    lemma_with_lines_concat(blank, head, seq![line] + tail);
    lemma_with_lines_concat(with_lines(blank, head), seq![line], tail);
    assert(seq![line].drop_last() == Seq::<Seq<char>>::empty());
    assert(seq![line].last() == line);
    assert(with_lines(with_lines(blank, head), Seq::<Seq<char>>::empty()) == with_lines(
        blank,
        head,
    ));
    assert(with_lines(with_lines(blank, head), seq![line]) == with_line(
        with_lines(blank, head),
        line,
    ));
    lemma_with_lines_concat(blank, head, tail);
}

} // verus!
