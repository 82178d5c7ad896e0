use vstd::prelude::*;
use crate::types::AuditRecord;
use memmap2::MmapMut;

verus! {

/// Upper bound on the length of one exported CSV line.
pub const MAX_RECORD_LEN: usize = 100;

/// The ASCII digit for `d` (`d < 10`).
pub open spec fn digit_char(d: nat) -> char {
    (48 + d) as char
}

/// Decimal notation of `n`: most significant digit first, no leading
/// zeros, `"0"` for zero.
pub open spec fn decimal_chars(n: nat) -> Seq<char>
    decreases n,
{
    if n < 10 {
        seq![digit_char(n)]
    } else {
        decimal_chars(n / 10).push(digit_char(n % 10))
    }
}

/// The same notation as bytes.
pub open spec fn decimal_bytes(n: nat) -> Seq<u8> {
    Seq::new(decimal_chars(n).len(), |i: int| decimal_chars(n)[i] as u8)
}

/// One export line: `trade_id,dec_volume,dcse_settled_volume,timestamp_ns`
/// in decimal, ended by a newline.
pub open spec fn csv_line(r: AuditRecord) -> Seq<u8> {
    decimal_bytes(r.trade_id as nat) + seq![44u8] + decimal_bytes(r.dec_volume as nat) + seq![44u8]
        + decimal_bytes(r.dcse_settled_volume as nat) + seq![44u8] + decimal_bytes(
        r.timestamp_ns as nat,
    ) + seq![10u8]
}

pub open spec fn pow10(k: nat) -> nat
    decreases k,
{
    if k == 0 {
        1
    } else {
        10 * pow10((k - 1) as nat)
    }
}

proof fn lemma_decimal_shape(n: nat)
    ensures
        decimal_chars(n).len() >= 1,
        forall|i: int|
            0 <= i < decimal_chars(n).len() ==> '0' <= #[trigger] decimal_chars(n)[i] <= '9',
    decreases n,
{
    if n >= 10 {
        lemma_decimal_shape(n / 10);
    }
}

proof fn lemma_decimal_len(n: nat, k: nat)
    requires
        k >= 1,
        n < pow10(k),
    ensures
        decimal_chars(n).len() <= k,
    decreases k,
{
    if n >= 10 {
        assert(k >= 2) by {
            if k == 1 {
                assert(pow10(1) == 10) by {
                    reveal_with_fuel(pow10, 2);
                }
            }
        }
        assert(n / 10 < pow10((k - 1) as nat)) by (nonlinear_arith)
            requires
                n < pow10(k),
                pow10(k) == 10 * pow10((k - 1) as nat),
        ;
        lemma_decimal_len(n / 10, (k - 1) as nat);
    }
}

/// A `u64` needs at most twenty decimal digits.
proof fn lemma_u64_decimal_len(n: u64)
    ensures
        1 <= decimal_chars(n as nat).len() <= 20,
{
    assert(pow10(20) == 100000000000000000000nat) by {
        reveal_with_fuel(pow10, 21);
    }
    lemma_decimal_len(n as nat, 20);
    lemma_decimal_shape(n as nat);
}

/// The number a string of decimal digits denotes.
pub open spec fn decimal_value(digits: Seq<char>) -> nat
    decreases digits.len(),
{
    if digits.len() == 0 {
        0
    } else {
        10 * decimal_value(digits.drop_last()) + ((digits.last() as nat) - 48) as nat
    }
}

/// Decimal notation loses nothing: reading the digits back gives the
/// number.
pub proof fn law_decimal_round_trip(n: nat)
    ensures
        decimal_value(decimal_chars(n)) == n,
    decreases n,
{
    if n >= 10 {
        law_decimal_round_trip(n / 10);
        assert(decimal_chars(n).drop_last() =~= decimal_chars(n / 10));
        assert(decimal_chars(n).last() == digit_char(n % 10));
        assert((digit_char(n % 10) as nat) == 48 + n % 10);
        assert(10 * (n / 10) + n % 10 == n);
    } else {
        assert((digit_char(n) as nat) == 48 + n);
        assert(decimal_chars(n).drop_last() =~= Seq::<char>::empty());
        assert(decimal_value(Seq::<char>::empty()) == 0);
    }
}

/// Every byte of a decimal field is an ASCII digit, so no field of an
/// export line can contain the separator `,` or the terminator `\n`.
pub proof fn law_decimal_digits_only(n: nat)
    ensures
        decimal_bytes(n).len() >= 1,
        forall|i: int| 0 <= i < decimal_bytes(n).len() ==> 48 <= #[trigger] decimal_bytes(n)[i] <= 57,
{
    lemma_decimal_shape(n);
    assert forall|i: int| 0 <= i < decimal_bytes(n).len() implies 48 <= #[trigger] decimal_bytes(
        n,
    )[i] <= 57 by {
        assert('0' <= decimal_chars(n)[i] <= '9');
    }
}

/// Index of the first `b` in `s`, or the length of `s` when there is none.
pub open spec fn first_index_of(s: Seq<u8>, b: u8) -> int
    decreases s.len(),
{
    if s.len() == 0 {
        0
    } else if s[0] == b {
        0
    } else {
        1 + first_index_of(s.drop_first(), b)
    }
}

/// Field `k` (from 0) of a comma-separated line: the bytes before the
/// next comma after `k` commas.
pub open spec fn csv_field(line: Seq<u8>, k: nat) -> Seq<u8>
    decreases k,
{
    let i = first_index_of(line, 44);
    if k == 0 {
        line.take(i)
    } else if i < line.len() {
        csv_field(line.skip(i + 1), (k - 1) as nat)
    } else {
        Seq::empty()
    }
}

/// The number that a string of ASCII digit bytes denotes.
pub open spec fn digits_value(digits: Seq<u8>) -> nat
    decreases digits.len(),
{
    if digits.len() == 0 {
        0
    } else {
        10 * digits_value(digits.drop_last()) + ((digits.last() as nat) - 48) as nat
    }
}

proof fn lemma_decimal_bytes_value(n: nat)
    ensures
        digits_value(decimal_bytes(n)) == n,
        forall|i: int| 0 <= i < decimal_bytes(n).len() ==> #[trigger] decimal_bytes(n)[i] != 44u8
            && decimal_bytes(n)[i] != 10u8,
    decreases n,
{
    lemma_decimal_shape(n);
    assert forall|i: int| 0 <= i < decimal_bytes(n).len() implies #[trigger] decimal_bytes(n)[i]
        != 44u8 && decimal_bytes(n)[i] != 10u8 by {
        assert('0' <= decimal_chars(n)[i] <= '9');
    }
    if n >= 10 {
        lemma_decimal_bytes_value(n / 10);
        assert(decimal_bytes(n).drop_last() =~= decimal_bytes(n / 10));
        assert(decimal_chars(n).last() == digit_char(n % 10));
        assert((digit_char(n % 10) as u8) as nat == 48 + n % 10);
        assert(10 * (n / 10) + n % 10 == n);
    } else {
        assert((digit_char(n) as u8) as nat == 48 + n);
        assert(decimal_bytes(n).drop_last() =~= Seq::<u8>::empty());
        assert(digits_value(Seq::<u8>::empty()) == 0);
    }
}

proof fn lemma_first_index_of(d: Seq<u8>, b: u8, rest: Seq<u8>)
    requires
        forall|i: int| 0 <= i < d.len() ==> d[i] != b,
    ensures
        first_index_of(d + seq![b] + rest, b) == d.len(),
        first_index_of(d, b) == d.len(),
    decreases d.len(),
{
    if d.len() > 0 {
        lemma_first_index_of(d.drop_first(), b, rest);
        assert((d + seq![b] + rest).drop_first() =~= d.drop_first() + seq![b] + rest);
    } else {
        assert((d + seq![b] + rest)[0] == b);
    }
}

/// An export line reads back as its record: its four comma-separated
/// fields are the decimal trade id, executed volume, settled volume and
/// timestamp, and the last field ends with the newline.
pub proof fn law_csv_line_reads_back(r: AuditRecord)
    ensures
        digits_value(csv_field(csv_line(r), 0)) == r.trade_id,
        digits_value(csv_field(csv_line(r), 1)) == r.dec_volume,
        digits_value(csv_field(csv_line(r), 2)) == r.dcse_settled_volume,
        digits_value(csv_field(csv_line(r), 3).drop_last()) == r.timestamp_ns,
        csv_field(csv_line(r), 3).last() == 10u8,
{
    let a = decimal_bytes(r.trade_id as nat);
    let b = decimal_bytes(r.dec_volume as nat);
    let c = decimal_bytes(r.dcse_settled_volume as nat);
    let d = decimal_bytes(r.timestamp_ns as nat);
    lemma_decimal_bytes_value(r.trade_id as nat);
    lemma_decimal_bytes_value(r.dec_volume as nat);
    lemma_decimal_bytes_value(r.dcse_settled_volume as nat);
    lemma_decimal_bytes_value(r.timestamp_ns as nat);
    let nl: Seq<u8> = seq![10u8];
    let line = csv_line(r);
    let l1 = b + seq![44u8] + c + seq![44u8] + d + nl;
    let l2 = c + seq![44u8] + d + nl;
    let l3 = d + nl;
    assert(line =~= a + seq![44u8] + l1);
    assert(l1 =~= b + seq![44u8] + (c + seq![44u8] + d + nl));
    assert(l2 =~= c + seq![44u8] + l3);
    lemma_first_index_of(a, 44u8, l1);
    lemma_first_index_of(b, 44u8, l2);
    lemma_first_index_of(c, 44u8, l3);
    assert(forall|i: int| 0 <= i < l3.len() ==> l3[i] != 44u8) by {
        assert forall|i: int| 0 <= i < l3.len() implies l3[i] != 44u8 by {
            if i < d.len() {
                assert(l3[i] == d[i]);
            } else {
                assert(l3[i] == 10u8);
            }
        }
    }
    lemma_first_index_of(l3, 44u8, Seq::<u8>::empty());
    assert(line.take(a.len() as int) =~= a);
    assert(line.skip((a.len() + 1) as int) =~= l1);
    assert(l1.take(b.len() as int) =~= b);
    assert(l1.skip((b.len() + 1) as int) =~= l2);
    assert(l2.take(c.len() as int) =~= c);
    assert(l2.skip((c.len() + 1) as int) =~= l3);
    assert(l3.take(l3.len() as int) =~= l3);
    assert(l3.drop_last() =~= d);
    assert(csv_field(line, 0) == a);
    assert(csv_field(l1, 0) == b);
    assert(csv_field(line, 1) == b);
    assert(csv_field(l2, 0) == c);
    assert(csv_field(l1, 1) == c);
    assert(csv_field(line, 2) == c);
    assert(csv_field(l3, 0) == l3);
    assert(csv_field(l2, 1) == l3);
    assert(csv_field(l1, 2) == l3);
    assert(csv_field(line, 3) == l3);
}

/// Decimal notation of `n`, as `itoa::Buffer::format` prints it.
///
/// Calls `itoa::Buffer::format`, which prints an unsigned integer in
/// decimal with no sign, no leading zeros and `0` for zero; the contract
/// states exactly that text.
#[verifier::external_body]
fn itoa_decimal(n: u64) -> (s: String)
    ensures
        s@ == decimal_chars(n as nat),
{
    let mut buffer = itoa::Buffer::new();
    buffer.format(n).to_string()
}

/// Appends the decimal notation of `n` to `out`.
fn push_decimal(out: &mut Vec<u8>, n: u64)
    ensures
        final(out)@ == old(out)@ + decimal_bytes(n as nat),
{
    let text = itoa_decimal(n);
    let text_str = text.as_str();
    let bytes = text_str.as_bytes();
    proof {
        lemma_u64_decimal_len(n);
        lemma_decimal_shape(n as nat);
        assert(vstd::string::is_ascii(text_str));
        vstd::string::is_ascii_spec_bytes(text_str);
        assert(bytes@ =~= decimal_bytes(n as nat));
    }
    let ghost start = out@;
    let mut i: usize = 0;
    while i < bytes.len()
        invariant
            bytes@ == decimal_bytes(n as nat),
            i <= bytes@.len(),
            out@ == start + bytes@.take(i as int),
        decreases bytes@.len() - i,
    {
        out.push(bytes[i]);
        assert(bytes@.take(i + 1) =~= bytes@.take(i as int).push(bytes@[i as int]));
        i += 1;
    }
    assert(bytes@.take(bytes@.len() as int) =~= bytes@);
}

/// The CSV line of one record, at most `MAX_RECORD_LEN` bytes long.
pub fn encode_csv_record(record: &AuditRecord) -> (line: Vec<u8>)
    ensures
        line@ == csv_line(*record),
        line@.len() <= MAX_RECORD_LEN,
{
    let mut line: Vec<u8> = Vec::new();
    push_decimal(&mut line, record.trade_id as u64);
    line.push(44u8);
    push_decimal(&mut line, record.dec_volume);
    line.push(44u8);
    push_decimal(&mut line, record.dcse_settled_volume);
    line.push(44u8);
    push_decimal(&mut line, record.timestamp_ns);
    line.push(10u8);
    proof {
        lemma_u64_decimal_len(record.trade_id as u64);
        lemma_u64_decimal_len(record.dec_volume);
        lemma_u64_decimal_len(record.dcse_settled_volume);
        lemma_u64_decimal_len(record.timestamp_ns);
        assert(line@ =~= csv_line(*record));
    }
    line
}

#[verifier::external_type_specification]
#[verifier::external_body]
pub struct ExMmapMut(memmap2::MmapMut);

/// The bytes of a writable memory map, as this process sees them.
pub uninterp spec fn mapped_bytes(m: MmapMut) -> Seq<u8>;

/// Length of a memory map.
///
/// Calls `<MmapMut as Deref>::deref` and `len` on the slice: the map
/// dereferences to a byte slice as long as the mapping.
#[verifier::external_body]
fn segment_len(m: &MmapMut) -> (len: usize)
    ensures
        len == mapped_bytes(*m).len(),
{
    m.len()
}

/// Copies `bytes` into a memory map at `offset`.
///
/// Calls `copy_from_slice` on the range `offset..offset + bytes.len()` of
/// `<MmapMut as DerefMut>::deref_mut`: those bytes become `bytes`, the
/// others and the length stay. The contract says nothing of writes that
/// another process sharing the mapped file makes meanwhile.
#[verifier::external_body]
fn segment_write(m: &mut MmapMut, offset: usize, bytes: &[u8])
    requires
        offset + bytes@.len() <= mapped_bytes(*old(m)).len(),
    ensures
        mapped_bytes(*final(m)) == mapped_bytes(*old(m)).take(offset as int) + bytes@
            + mapped_bytes(*old(m)).skip(offset + bytes@.len()),
{
    m[offset..offset + bytes.len()].copy_from_slice(bytes);
}

/// The file name of export part `part_index` for `prefix`:
/// `<prefix>_part_<part_index>.csv`.
pub open spec fn part_file_name(prefix: Seq<char>, part_index: u32) -> Seq<char> {
    prefix + "_part_"@ + decimal_chars(part_index as nat) + ".csv"@
}

/// A part name is the prefix, `_part_`, the decimal digits of the part
/// number, and `.csv`: the digits between `_part_` and `.csv` read back as
/// the part number.
pub proof fn law_part_name_encodes_index(prefix: Seq<char>, part_index: u32)
    ensures
        ({
            let name = part_file_name(prefix, part_index);
            &&& name.len() == prefix.len() + 6 + decimal_chars(part_index as nat).len() + 4
            &&& name.subrange(0, prefix.len() as int) == prefix
            &&& name.subrange(prefix.len() as int, (prefix.len() + 6) as int) == "_part_"@
            &&& decimal_value(name.subrange((prefix.len() + 6) as int, name.len() - 4)) == part_index
            &&& name.subrange(name.len() - 4, name.len() as int) == ".csv"@
        }),
{
    reveal_strlit("_part_");
    reveal_strlit(".csv");
    let name = part_file_name(prefix, part_index);
    let d = decimal_chars(part_index as nat);
    assert(name.subrange(0, prefix.len() as int) =~= prefix);
    assert(name.subrange(prefix.len() as int, (prefix.len() + 6) as int) =~= "_part_"@);
    assert(name.subrange((prefix.len() + 6) as int, name.len() - 4) =~= d);
    assert(name.subrange(name.len() - 4, name.len() as int) =~= ".csv"@);
    law_decimal_round_trip(part_index as nat);
}

/// Distinct parts get distinct file names, so no roll-over reopens the file
/// of an earlier part.
pub proof fn law_part_names_distinct(prefix: Seq<char>, i: u32, j: u32)
    requires
        i != j,
    ensures
        part_file_name(prefix, i) != part_file_name(prefix, j),
{
    law_part_name_encodes_index(prefix, i);
    law_part_name_encodes_index(prefix, j);
    if part_file_name(prefix, i) == part_file_name(prefix, j) {
        let name = part_file_name(prefix, i);
        assert(decimal_value(name.subrange((prefix.len() + 6) as int, name.len() - 4)) == i);
        assert(decimal_value(name.subrange((prefix.len() + 6) as int, name.len() - 4)) == j);
    }
}

/// What the exporter holds, seen from outside.
pub struct ExporterState {
    /// The bytes of the current part, once one is mapped.
    pub segment: Option<Seq<u8>>,
    /// Where the next line goes in the current part.
    pub offset: nat,
    /// The size every part is created with.
    pub max_size: nat,
    pub file_prefix: Seq<char>,
    /// Number of the next part to be created.
    pub part_index: u32,
}

/// Formats audit records into CSV export parts: memory-mapped files of a
/// fixed size, filled line by line and rolled over to a new part before a
/// line could run past the end.
pub struct CatExporter<'a> {
    mmap: Option<MmapMut>,
    offset: usize,
    max_size: usize,
    file_prefix: String,
    part_index: u32,
    _phantom: std::marker::PhantomData<&'a ()>,
}

impl<'a> View for CatExporter<'a> {
    type V = ExporterState;

    closed spec fn view(&self) -> ExporterState {
        ExporterState {
            segment: match self.mmap {
                Some(m) => Some(mapped_bytes(m)),
                None => None,
            },
            offset: self.offset as nat,
            max_size: self.max_size as nat,
            file_prefix: self.file_prefix@,
            part_index: self.part_index,
        }
    }
}

impl ExporterState {
    /// The current part cannot take another line of the largest size.
    pub open spec fn needs_roll(self) -> bool {
        self.offset + MAX_RECORD_LEN > self.max_size
    }

    /// The line of `r` fits in the current part at the current offset.
    pub open spec fn fits(self, r: AuditRecord) -> bool {
        match self.segment {
            Some(bytes) => self.offset + csv_line(r).len() <= bytes.len(),
            None => true,
        }
    }

    /// The exporter's own consistency: the offset never passes the part
    /// size, a mapped part has the configured size, and before any part is
    /// mapped nothing has been written.
    pub open spec fn wf(self) -> bool {
        &&& self.offset <= self.max_size
        &&& match self.segment {
            Some(bytes) => bytes.len() == self.max_size,
            None => self.offset == 0,
        }
    }
}

/// Once the roll check has passed, the line of any record fits in the
/// current part; and a freshly rolled part of at least `MAX_RECORD_LEN`
/// bytes takes any line.
pub proof fn law_checked_line_fits(state: ExporterState, r: AuditRecord)
    requires
        state.wf(),
        !state.needs_roll() || (state.offset == 0 && state.max_size >= MAX_RECORD_LEN),
    ensures
        state.fits(r),
{
    lemma_csv_line_len(r);
}

proof fn lemma_csv_line_len(r: AuditRecord)
    ensures
        csv_line(r).len() <= MAX_RECORD_LEN,
{
    lemma_u64_decimal_len(r.trade_id as u64);
    lemma_u64_decimal_len(r.dec_volume);
    lemma_u64_decimal_len(r.dcse_settled_volume);
    lemma_u64_decimal_len(r.timestamp_ns);
}

impl<'a> CatExporter<'a> {
    /// An exporter for parts named after `file_prefix`, each `max_size`
    /// bytes; no part is mapped yet and the first one is part 1.
    pub fn new(file_prefix: &str, max_size: usize) -> (exporter: Self)
        ensures
            exporter@.segment is None,
            exporter@.offset == 0,
            exporter@.max_size == max_size,
            exporter@.file_prefix == file_prefix@,
            exporter@.part_index == 1,
            exporter@.wf(),
    {
        CatExporter {
            mmap: None,
            offset: 0,
            max_size,
            file_prefix: file_prefix.to_owned(),
            part_index: 1,
            _phantom: std::marker::PhantomData,
        }
    }

    /// Size of every part in bytes.
    pub fn max_size(&self) -> (size: usize)
        ensures
            size == self@.max_size,
    {
        self.max_size
    }

    /// Number of the next part to be created.
    pub fn part_index(&self) -> (index: u32)
        ensures
            index == self@.part_index,
    {
        self.part_index
    }

    /// Where the next line goes in the current part.
    pub fn offset(&self) -> (offset: usize)
        ensures
            offset == self@.offset,
    {
        self.offset
    }

    /// The file name of the next part: `<prefix>_part_<index>.csv`.
    pub fn next_part_file_name(&self) -> (name: String)
        ensures
            name@ == part_file_name(self@.file_prefix, self@.part_index),
    {
        let mut name = self.file_prefix.clone();
        name.append("_part_");
        let digits = itoa_decimal(self.part_index as u64);
        name.append(digits.as_str());
        name.append(".csv");
        proof {
            assert(name@ =~= part_file_name(self@.file_prefix, self@.part_index));
        }
        name
    }

    /// Whether the current part must be rolled over before the next line.
    pub fn needs_roll(&self) -> (roll: bool)
        ensures
            roll == self@.needs_roll(),
    {
        self.max_size < MAX_RECORD_LEN || self.offset > self.max_size - MAX_RECORD_LEN
    }

    /// The current part, for flushing it to its file.
    pub fn current_segment(&self) -> (segment: Option<&MmapMut>)
        ensures
            match segment {
                Some(m) => self@.segment == Some(mapped_bytes(*m)),
                None => self@.segment is None,
            },
    {
        self.mmap.as_ref()
    }

    /// Makes `mmap` (the freshly created next part, `max_size` bytes long)
    /// the current part: writing restarts at its beginning and the part
    /// number advances.
    pub fn install_segment(&mut self, mmap: MmapMut)
        requires
            mapped_bytes(mmap).len() == old(self)@.max_size,
            old(self)@.part_index < u32::MAX,
            old(self)@.wf(),
        ensures
            final(self)@ == (ExporterState {
                segment: Some(mapped_bytes(mmap)),
                offset: 0,
                part_index: (old(self)@.part_index + 1) as u32,
                ..old(self)@
            }),
            final(self)@.wf(),
    {
        self.mmap = Some(mmap);
        self.offset = 0;
        self.part_index = self.part_index + 1;
    }

    /// Whether the line of `record` fits in the current part at the
    /// current offset.
    pub fn record_fits(&self, record: &AuditRecord) -> (fits: bool)
        requires
            self@.wf(),
        ensures
            fits == self@.fits(*record),
    {
        match &self.mmap {
            Some(m) => {
                let line = encode_csv_record(record);
                let len = segment_len(m);
                line.len() <= len - self.offset
            },
            None => true,
        }
    }

    /// Writes the CSV line of `record` at the current offset of the current
    /// part and moves the offset past it; without a part nothing happens.
    pub fn write_record(&mut self, record: &AuditRecord)
        requires
            old(self)@.wf(),
            old(self)@.fits(*record),
        ensures
            final(self)@.wf(),
            final(self)@.max_size == old(self)@.max_size,
            final(self)@.file_prefix == old(self)@.file_prefix,
            final(self)@.part_index == old(self)@.part_index,
            match old(self)@.segment {
                Some(bytes) => {
                    &&& final(self)@.segment == Some(
                        bytes.take(old(self)@.offset as int) + csv_line(*record) + bytes.skip(
                            (old(self)@.offset + csv_line(*record).len()) as int,
                        ),
                    )
                    &&& final(self)@.offset == old(self)@.offset + csv_line(*record).len()
                },
                None => final(self)@ == old(self)@,
            },
    {
        let line = encode_csv_record(record);
        let offset = self.offset;
        match &mut self.mmap {
            Some(m) => {
                segment_write(m, offset, line.as_slice());
                self.offset = offset + line.len();
            },
            None => {},
        }
    }
}

} // verus!
