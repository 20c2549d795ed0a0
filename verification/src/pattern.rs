use vstd::prelude::*;
use vstd::std_specs::cmp::PartialEqSpec;
use vstd::std_specs::cmp::PartialOrdSpec;
use core::cmp::Ordering;
use crate::byte::{
    described, description_text, spec_from_chunk, text_payload, ByteStringProblem, InvalidByteStringError, Mask, PatternByte,
};

verus! {

/// Represents a sequence of masked bytes.
#[derive(Clone, Debug, PartialEq, Eq, PartialOrd, Ord, Hash)]
pub struct Pattern {
    pub bytes: Vec<PatternByte>,
}

impl View for Pattern {
    type V = Seq<PatternByte>;

    open spec fn view(&self) -> Seq<PatternByte> {
        self.bytes@
    }
}

/// Whether the pattern `p` matches `data`: both have the same length and
/// each pattern byte matches the byte at its place.
pub open spec fn matches(p: Seq<PatternByte>, data: Seq<u8>) -> bool {
    &&& p.len() == data.len()
    &&& forall|i: int| 0 <= i < p.len() ==> #[trigger] p[i].matches(data[i])
}

/// Whether the pattern `p` matches `data` at position `start`.
pub open spec fn matches_at(p: Seq<PatternByte>, data: Seq<u8>, start: int) -> bool {
    &&& 0 <= start
    &&& start + p.len() <= data.len()
    &&& matches(p, data.subrange(start, start + p.len()))
}

/// The wildcard that keeps the stored byte of `b`.
pub open spec fn widened(b: PatternByte) -> PatternByte {
    PatternByte { byte: b.byte, mask: Mask::Wildcard }
}

/// The merge of two patterns: position by position the merge of the pattern
/// bytes where both have one, then the rest of the longer pattern made
/// wildcards.
pub open spec fn spec_merge(a: Seq<PatternByte>, b: Seq<PatternByte>) -> Seq<PatternByte> {
    let n = if a.len() > b.len() { a.len() } else { b.len() };
    Seq::new(
        n,
        |i: int|
            if i < a.len() && i < b.len() {
                a[i].spec_merge(b[i])
            } else if i < a.len() {
                widened(a[i])
            } else {
                widened(b[i])
            },
    )
}

impl Pattern {
    /// The number of pattern bytes.
    pub fn len(&self) -> (r: usize)
        ensures
            r == self@.len(),
    {
        self.bytes.len()
    }

    /// Whether the pattern has no bytes.
    pub fn is_empty(&self) -> (r: bool)
        ensures
            r == (self@.len() == 0),
    {
        self.bytes.len() == 0
    }

    /// The pattern bytes.
    pub fn as_slice(&self) -> (r: &[PatternByte])
        ensures
            r@ == self@,
    {
        self.bytes.as_slice()
    }

    /// Whether this pattern matches `data` starting at `start`.
    pub fn matches_at(&self, data: &[u8], start: usize) -> (r: bool)
        ensures
            r == matches_at(self@, data@, start as int),
    {
        let n = self.bytes.len();
        if start > data.len() || n > data.len() - start {
            return false;
        }
        let mut j: usize = 0;
        while j < n
            invariant
                n == self@.len(),
                start + n <= data.len(),
                j <= n,
                forall|k: int| 0 <= k < j ==> #[trigger] self@[k].matches(data@[start + k]),
            decreases n - j,
        {
            assert(start + j < data.len());
            if !self.bytes[j].matches_byte(data[start + j]) {
                assert(data@.subrange(start as int, start + n)[j as int] == data@[start + j]);
                return false;
            }
            j = j + 1;
        }
        assert(matches(self@, data@.subrange(start as int, start + n))) by {
            assert forall|k: int| 0 <= k < n implies #[trigger] self@[k].matches(
                data@.subrange(start as int, start + n)[k],
            ) by {
                assert(data@.subrange(start as int, start + n)[k] == data@[start + k]);
            }
        }
        true
    }

    /// Whether this pattern matches `data`: the same length, and each pattern
    /// byte matches the byte at its place.
    pub fn matches_data(&self, data: &[u8]) -> (r: bool)
        ensures
            r == matches(self@, data@),
    {
        if self.bytes.len() != data.len() {
            return false;
        }
        let r = self.matches_at(data, 0);
        assert(data@.subrange(0, data@.len() as int) =~= data@);
        r
    }

    /// Merges this `Pattern` into a broader pattern.
    pub fn merge(&self, other: &Self) -> (r: Self)
        ensures
            r@ == spec_merge(self@, other@),
    {
        let n1 = self.bytes.len();
        let n2 = other.bytes.len();
        let (longer, shorter) = if n1 > n2 {
            (&self.bytes, &other.bytes)
        } else {
            (&other.bytes, &self.bytes)
        };
        let ghost target = spec_merge(self@, other@);
        let short_len = shorter.len();
        let long_len = longer.len();
        let mut out: Vec<PatternByte> = Vec::new();
        let mut i: usize = 0;
        while i < short_len
            invariant
                n1 == self@.len(),
                n2 == other@.len(),
                short_len == if n1 > n2 { n2 } else { n1 },
                target == spec_merge(self@, other@),
                i <= short_len,
                out@.len() == i,
                forall|k: int| 0 <= k < i ==> #[trigger] out@[k] == target[k],
            decreases short_len - i,
        {
            out.push(self.bytes[i].merge(other.bytes[i]));
            i = i + 1;
        }
        while i < long_len
            invariant
                n1 == self@.len(),
                n2 == other@.len(),
                short_len == if n1 > n2 { n2 } else { n1 },
                long_len == if n1 > n2 { n1 } else { n2 },
                longer@ == if n1 > n2 { self@ } else { other@ },
                target == spec_merge(self@, other@),
                short_len <= i <= long_len,
                out@.len() == i,
                forall|k: int| 0 <= k < i ==> #[trigger] out@[k] == target[k],
            decreases long_len - i,
        {
            out.push(PatternByte::new(longer[i].byte, Mask::Wildcard));
            i = i + 1;
        }
        assert(out@ =~= target);
        Pattern { bytes: out }
    }

    /// Finds the position of this pattern in the given data: the first place
    /// where the pattern matches, `Some(0)` for the empty pattern, `None`
    /// where it matches nowhere.
    pub fn find(&self, data: &[u8]) -> (r: Option<usize>)
        ensures
            self@.len() == 0 ==> r == Some(0usize),
            r matches Some(i) ==> matches_at(self@, data@, i as int),
            r matches Some(i) ==> forall|j: int|
                0 <= j < i ==> !#[trigger] matches_at(self@, data@, j),
            r is None ==> forall|j: int| !#[trigger] matches_at(self@, data@, j),
    {
        let n = self.bytes.len();
        if n == 0 {
            proof {
                assert(matches(self@, data@.subrange(0, 0)));
            }
            return Some(0);
        }
        if n > data.len() {
            return None;
        }
        let last = data.len() - n;
        assert(last < usize::MAX);
        let mut start: usize = 0;
        while start <= last
            invariant
                n == self@.len(),
                n > 0,
                last + n == data@.len(),
                last < usize::MAX,
                forall|j: int| 0 <= j < start ==> !#[trigger] matches_at(self@, data@, j),
            decreases last + 1 - start,
        {
            if self.matches_at(data, start) {
                return Some(start);
            }
            start = start + 1;
        }
        None
    }
}

/// `s` without its spaces.
pub open spec fn without_spaces(s: Seq<u8>) -> Seq<u8>
    decreases s.len(),
{
    if s.len() == 0 {
        s
    } else if s.last() == 0x20 {
        without_spaces(s.drop_last())
    } else {
        without_spaces(s.drop_last()).push(s.last())
    }
}

/// `acc` before the pattern bytes of `r`, or the error of `r`.
pub open spec fn prepend_ok(acc: Seq<PatternByte>, r: Result<Seq<PatternByte>, (ByteStringProblem, Seq<u8>)>) -> Result<
    Seq<PatternByte>,
    (ByteStringProblem, Seq<u8>),
> {
    match r {
        Ok(rest) => Ok(acc + rest),
        Err(e) => Err(e),
    }
}

/// The pattern bytes that `f` stands for, read two bytes at a time (the
/// last chunk may hold one), or the problem with the first chunk that
/// stands for none.
pub open spec fn spec_parse_chunks(f: Seq<u8>) -> Result<
    Seq<PatternByte>,
    (ByteStringProblem, Seq<u8>),
>
    decreases f.len(),
{
    if f.len() == 0 {
        Ok(seq![])
    } else {
        let n: int = if f.len() >= 2 { 2 } else { 1 };
        match spec_from_chunk(f.take(n)) {
            Err(e) => Err(e),
            Ok(b) => prepend_ok(seq![b], spec_parse_chunks(f.skip(n))),
        }
    }
}

/// The pattern a string stands for: the string without leading and trailing
/// whitespace and without a `0x` or `0X` prefix, without spaces, read two
/// characters at a time.
pub open spec fn spec_parse(s: Seq<char>) -> Result<Seq<PatternByte>, (ByteStringProblem, Seq<u8>)> {
    spec_parse_chunks(without_spaces(text_payload(s)))
}

/// The view of a result whose value is a pattern.
pub open spec fn pattern_result_view(r: Result<Pattern, InvalidByteStringError>) -> Result<
    Seq<PatternByte>,
    Seq<char>,
> {
    match r {
        Ok(p) => Ok(p@),
        Err(e) => Err(e@),
    }
}

/// A pattern read from `f` has one pattern byte for every two bytes of `f`,
/// and one for an odd last byte.
pub proof fn lemma_parse_chunks_len(f: Seq<u8>)
    ensures
        spec_parse_chunks(f) matches Ok(p) ==> p.len() == (f.len() + 1) / 2,
    decreases f.len(),
{
    if f.len() > 0 {
        let n: int = if f.len() >= 2 { 2 } else { 1 };
        lemma_parse_chunks_len(f.skip(n));
    }
}

impl Pattern {
    /// The pattern bytes that the bytes of `f` stand for.
    fn parse_chunks(f: &[u8]) -> (r: Result<Vec<PatternByte>, InvalidByteStringError>)
        ensures
            match r {
                Ok(v) => spec_parse_chunks(f@) == Ok::<Seq<PatternByte>, (ByteStringProblem, Seq<u8>)>(v@),
                Err(e) => spec_parse_chunks(f@) matches Err(x) && e@ == description_text(x),
            },
    {
        let mut out: Vec<PatternByte> = Vec::new();
        let mut i: usize = 0;
        assert(f@.skip(0) =~= f@);
        while i < f.len()
            invariant
                i <= f.len(),
                spec_parse_chunks(f@) == prepend_ok(out@, spec_parse_chunks(f@.skip(i as int))),
            decreases f.len() - i,
        {
            let hi = if f.len() - i >= 2 { i + 2 } else { i + 1 };
            let ghost rest = f@.skip(i as int);
            let ghost n: int = hi - i;
            assert(rest.take(n) =~= f@.subrange(i as int, hi as int));
            assert(rest.skip(n) =~= f@.skip(hi as int));
            match PatternByte::from_chunk_range(f, i, hi) {
                Ok(b) => {
                    proof {
                        let tail = spec_parse_chunks(f@.skip(hi as int));
                        match tail {
                            Ok(t) => {
                                assert(out@.push(b) + t =~= out@ + (seq![b] + t));
                            },
                            Err(_) => {},
                        }
                    }
                    out.push(b);
                },
                Err(e) => {
                    return Err(e);
                },
            }
            i = hi;
        }
        assert(out@ + seq![] =~= out@);
        Ok(out)
    }

    /// Reads a pattern from text: whitespace around it and a `0x` or `0X`
    /// prefix are dropped, spaces inside are ignored, and every two
    /// characters stand for one pattern byte (see `PatternByte::from_chunk`).
    pub fn parse(s: &str) -> (r: Result<Self, InvalidByteStringError>)
        ensures
            pattern_result_view(r) == described(spec_parse(s@)),
            r matches Ok(p) ==> p@.len() == (without_spaces(text_payload(s@)).len() + 1) / 2,
    {
        let trimmed = crate::text::trim_str(s);
        let bytes = trimmed.as_bytes();
        let start: usize = if bytes.len() >= 2 && bytes[0] == 0x30 && (bytes[1] == 0x78
            || bytes[1] == 0x58) {
            2
        } else {
            0
        };
        let ghost payload = text_payload(s@);
        assert(payload =~= bytes@.subrange(start as int, bytes@.len() as int));
        let mut filtered: Vec<u8> = Vec::new();
        let mut i: usize = start;
        assert(bytes@.subrange(start as int, start as int) =~= Seq::<u8>::empty());
        while i < bytes.len()
            invariant
                start <= i <= bytes.len(),
                filtered@ == without_spaces(bytes@.subrange(start as int, i as int)),
            decreases bytes.len() - i,
        {
            assert(bytes@.subrange(start as int, i + 1).drop_last() =~= bytes@.subrange(
                start as int,
                i as int,
            ));
            if bytes[i] != 0x20 {
                filtered.push(bytes[i]);
            }
            i = i + 1;
        }
        proof {
            lemma_parse_chunks_len(filtered@);
        }
        if filtered.len() == 0 {
            return Ok(Self::default());
        }
        match Self::parse_chunks(filtered.as_slice()) {
            Ok(v) => Ok(Pattern { bytes: v }),
            Err(e) => Err(e),
        }
    }
}

/// The text of a pattern: the text of each pattern byte, separated by
/// single spaces.
pub open spec fn pattern_text(p: Seq<PatternByte>) -> Seq<char>
    decreases p.len(),
{
    if p.len() == 0 {
        seq![]
    } else if p.len() == 1 {
        p[0].text()
    } else {
        pattern_text(p.drop_last()) + seq![' '] + p.last().text()
    }
}

impl Pattern {
    /// The pattern as text, e.g. `AB A? ?B ??`.
    pub fn to_string(&self) -> (r: String)
        ensures
            r@ == pattern_text(self@),
    {
        let mut s = String::new();
        let n = self.bytes.len();
        if n == 0 {
            return s;
        }
        self.bytes[0].push_text(&mut s);
        assert(s@ =~= pattern_text(self@.subrange(0, 1)));
        let mut i: usize = 1;
        while i < n
            invariant
                n == self@.len(),
                1 <= i <= n,
                s@ == pattern_text(self@.subrange(0, i as int)),
            decreases n - i,
        {
            crate::text::push_char(&mut s, ' ');
            self.bytes[i].push_text(&mut s);
            assert(self@.subrange(0, i + 1).drop_last() =~= self@.subrange(0, i as int));
            i = i + 1;
        }
        assert(self@.subrange(0, n as int) =~= self@);
        s
    }
}

/// Collects pattern bytes, in the order the iterator gives them, through
/// `Iterator::collect` into the pattern's `Vec`.
impl FromIterator<PatternByte> for Pattern {
    #[verifier::external_body]
    fn from_iter<T: IntoIterator<Item = PatternByte>>(iter: T) -> Self {
        Pattern { bytes: iter.into_iter().collect() }
    }
}

/// Collects bytes, in the order the iterator gives them, each turned into a
/// full pattern byte by `PatternByte::from`, through `Iterator::collect`.
impl FromIterator<u8> for Pattern {
    #[verifier::external_body]
    fn from_iter<T: IntoIterator<Item = u8>>(iter: T) -> Self {
        Pattern { bytes: iter.into_iter().map(PatternByte::from).collect() }
    }
}

impl core::str::FromStr for Pattern {
    type Err = InvalidByteStringError;

    fn from_str(s: &str) -> (r: Result<Self, Self::Err>)
        ensures
            pattern_result_view(r) == described(spec_parse(s@)),
            r matches Ok(p) ==> p@.len() == (without_spaces(text_payload(s@)).len() + 1) / 2,
    {
        Self::parse(s)
    }
}

impl core::ops::Deref for Pattern {
    type Target = [PatternByte];

    fn deref(&self) -> (r: &[PatternByte])
        ensures
            r@ == self@,
    {
        self.bytes.as_slice()
    }
}

impl Pattern {
    /// Consumes the pattern into an iterator over its pattern bytes, in
    /// order.
    pub fn into_iter(self) -> (r: std::vec::IntoIter<PatternByte>)
        ensures
            vstd::std_specs::vec::into_iter_elts(r) == self@,
    {
        self.bytes.into_iter()
    }
}

impl PartialEq<Vec<u8>> for Pattern {
    fn eq(&self, other: &Vec<u8>) -> (r: bool) {
        self.matches_data(other.as_slice())
    }
}

impl vstd::std_specs::cmp::PartialEqSpecImpl<Vec<u8>> for Pattern {
    open spec fn obeys_eq_spec() -> bool {
        true
    }

    open spec fn eq_spec(&self, other: &Vec<u8>) -> bool {
        matches(self@, other@)
    }
}

impl PartialEq<[u8]> for Pattern {
    fn eq(&self, other: &[u8]) -> (r: bool) {
        self.matches_data(other)
    }
}

impl vstd::std_specs::cmp::PartialEqSpecImpl<[u8]> for Pattern {
    open spec fn obeys_eq_spec() -> bool {
        true
    }

    open spec fn eq_spec(&self, other: &[u8]) -> bool {
        matches(self@, other@)
    }
}

impl<'a> PartialEq<&'a [u8]> for Pattern {
    fn eq(&self, other: &&'a [u8]) -> (r: bool) {
        self.matches_data(*other)
    }
}

impl<'a> vstd::std_specs::cmp::PartialEqSpecImpl<&'a [u8]> for Pattern {
    open spec fn obeys_eq_spec() -> bool {
        true
    }

    open spec fn eq_spec(&self, other: &&'a [u8]) -> bool {
        matches(self@, other@)
    }
}

/// The full pattern byte of each byte of `data`.
pub open spec fn full_bytes(data: Seq<u8>) -> Seq<PatternByte> {
    data.map_values(|b: u8| PatternByte { byte: b, mask: Mask::Full })
}

impl Pattern {
    /// The pattern of the given pattern bytes, in order.
    pub fn from_pattern_bytes(items: &[PatternByte]) -> (r: Self)
        ensures
            r@ == items@,
    {
        let mut bytes: Vec<PatternByte> = Vec::new();
        let mut i: usize = 0;
        while i < items.len()
            invariant
                i <= items.len(),
                bytes@ == items@.subrange(0, i as int),
            decreases items.len() - i,
        {
            bytes.push(items[i]);
            i = i + 1;
        }
        assert(bytes@ =~= items@);
        Pattern { bytes }
    }

    /// The pattern that matches exactly `data`: each byte a full pattern byte.
    pub fn from_bytes(data: &[u8]) -> (r: Self)
        ensures
            r@ == full_bytes(data@),
    {
        let mut bytes: Vec<PatternByte> = Vec::new();
        let mut i: usize = 0;
        while i < data.len()
            invariant
                i <= data.len(),
                bytes@ == full_bytes(data@.subrange(0, i as int)),
            decreases data.len() - i,
        {
            bytes.push(PatternByte::from(data[i]));
            assert(full_bytes(data@.subrange(0, i + 1)) =~= full_bytes(data@.subrange(0, i as int)).push(
                PatternByte { byte: data@[i as int], mask: Mask::Full },
            ));
            i = i + 1;
        }
        assert(data@.subrange(0, data@.len() as int) =~= data@);
        Pattern { bytes }
    }
}

impl<'a> PartialEq<&'a Vec<u8>> for Pattern {
    fn eq(&self, other: &&'a Vec<u8>) -> (r: bool) {
        self.matches_data(other.as_slice())
    }
}

impl<'a> vstd::std_specs::cmp::PartialEqSpecImpl<&'a Vec<u8>> for Pattern {
    open spec fn obeys_eq_spec() -> bool {
        true
    }

    open spec fn eq_spec(&self, other: &&'a Vec<u8>) -> bool {
        matches(self@, other@)
    }
}

impl<const N: usize> PartialEq<[u8; N]> for Pattern {
    fn eq(&self, other: &[u8; N]) -> (r: bool) {
        self.matches_data(other.as_slice())
    }
}

impl<const N: usize> vstd::std_specs::cmp::PartialEqSpecImpl<[u8; N]> for Pattern {
    open spec fn obeys_eq_spec() -> bool {
        true
    }

    open spec fn eq_spec(&self, other: &[u8; N]) -> bool {
        matches(self@, other@)
    }
}

impl Default for Pattern {
    fn default() -> (r: Self)
        ensures
            r@ == Seq::<PatternByte>::empty(),
    {
        Pattern { bytes: Vec::new() }
    }
}

} // verus!

verus! {

/// Two patterns that match exactly the same data: the same length and,
/// position by position, equivalent pattern bytes.
pub open spec fn equivalent(a: Seq<PatternByte>, b: Seq<PatternByte>) -> bool {
    &&& a.len() == b.len()
    &&& forall|i: int| 0 <= i < a.len() ==> #[trigger] a[i].equivalent(b[i])
}

/// The merge of two patterns is as long as the longer of them.
pub proof fn lemma_merge_len(a: Seq<PatternByte>, b: Seq<PatternByte>)
    ensures
        spec_merge(a, b).len() == if a.len() > b.len() { a.len() } else { b.len() },
{
}

/// Merging generalises: data that a pattern matches, its merge with a
/// pattern no longer than it matches too.
pub proof fn lemma_merge_matches(a: Seq<PatternByte>, b: Seq<PatternByte>, data: Seq<u8>)
    requires
        matches(a, data) && b.len() <= a.len() || matches(b, data) && a.len() <= b.len(),
    ensures
        matches(spec_merge(a, b), data),
{
    let m = spec_merge(a, b);
    assert forall|i: int| 0 <= i < m.len() implies #[trigger] m[i].matches(data[i]) by {
        if i < a.len() && i < b.len() {
            if matches(a, data) && b.len() <= a.len() {
                assert(a[i].matches(data[i]));
            } else {
                assert(b[i].matches(data[i]));
            }
            crate::byte::lemma_merge_matches_both(a[i], b[i], data[i]);
        } else {
            assert(m[i].mask == Mask::Wildcard);
            let x = m[i].byte;
            let y = data[i];
            assert(x & 0u8 == y & 0u8) by (bit_vector);
        }
    }
}

/// A merged signature is found wherever a pattern no shorter than the other
/// one matches.
pub proof fn lemma_merge_matches_at(
    a: Seq<PatternByte>,
    b: Seq<PatternByte>,
    data: Seq<u8>,
    start: int,
)
    requires
        matches_at(a, data, start) && b.len() <= a.len() || matches_at(b, data, start) && a.len()
            <= b.len(),
    ensures
        matches_at(spec_merge(a, b), data, start),
{
    let n = spec_merge(a, b).len();
    lemma_merge_matches(a, b, data.subrange(start, start + n));
}

/// Merging generalises also where one pattern is shorter: data as long as
/// the merge, whose first bytes either pattern matches, the merge matches.
pub proof fn lemma_merge_matches_prefix(a: Seq<PatternByte>, b: Seq<PatternByte>, data: Seq<u8>)
    requires
        data.len() == spec_merge(a, b).len(),
        a.len() <= data.len() && matches(a, data.subrange(0, a.len() as int)) || b.len()
            <= data.len() && matches(b, data.subrange(0, b.len() as int)),
    ensures
        matches(spec_merge(a, b), data),
{
    let m = spec_merge(a, b);
    let a_matches = a.len() <= data.len() && matches(a, data.subrange(0, a.len() as int));
    assert forall|i: int| 0 <= i < m.len() implies #[trigger] m[i].matches(data[i]) by {
        if i < a.len() && i < b.len() {
            if a_matches {
                assert(data.subrange(0, a.len() as int)[i] == data[i]);
                assert(a[i].matches(data[i]));
            } else {
                assert(data.subrange(0, b.len() as int)[i] == data[i]);
                assert(b[i].matches(data[i]));
            }
            crate::byte::lemma_merge_matches_both(a[i], b[i], data[i]);
        } else {
            assert(m[i].mask == Mask::Wildcard);
            let x = m[i].byte;
            let y = data[i];
            assert(x & 0u8 == y & 0u8) by (bit_vector);
        }
    }
}

/// The pattern made of the full pattern bytes of `data` matches `data` and
/// nothing else.
pub proof fn lemma_full_bytes_match_only(data: Seq<u8>, other: Seq<u8>)
    ensures
        matches(full_bytes(data), other) <==> other == data,
{
    let p = full_bytes(data);
    if other.len() == data.len() {
        assert forall|i: int| 0 <= i < data.len() implies (#[trigger] p[i].matches(other[i]) <==> other[i] == data[i]) by {
            crate::byte::lemma_from_u8_matches_only_itself(data[i], other[i]);
        }
        if matches(p, other) {
            assert forall|i: int| 0 <= i < data.len() implies other[i] == data[i] by {
                assert(p[i].matches(other[i]));
            }
            assert(other =~= data);
        }
    }
}

/// Merging a pattern with itself gives it back.
pub proof fn lemma_merge_idempotent(a: Seq<PatternByte>)
    ensures
        spec_merge(a, a) == a,
{
    assert forall|i: int| 0 <= i < a.len() implies #[trigger] spec_merge(a, a)[i] == a[i] by {
        crate::byte::lemma_merge_idempotent(a[i]);
    }
    assert(spec_merge(a, a) =~= a);
}

/// Merging in either order gives equivalent patterns.
pub proof fn lemma_merge_commutative(a: Seq<PatternByte>, b: Seq<PatternByte>)
    ensures
        equivalent(spec_merge(a, b), spec_merge(b, a)),
{
    assert forall|i: int| 0 <= i < spec_merge(a, b).len() implies #[trigger] spec_merge(
        a,
        b,
    )[i].equivalent(spec_merge(b, a)[i]) by {
        if i < a.len() && i < b.len() {
            crate::byte::lemma_merge_commutative(a[i], b[i]);
        }
    }
}

/// Merging is associative.
pub proof fn lemma_merge_associative(
    a: Seq<PatternByte>,
    b: Seq<PatternByte>,
    c: Seq<PatternByte>,
)
    ensures
        spec_merge(spec_merge(a, b), c) == spec_merge(a, spec_merge(b, c)),
{
    let left = spec_merge(spec_merge(a, b), c);
    let right = spec_merge(a, spec_merge(b, c));
    assert forall|i: int| 0 <= i < left.len() implies #[trigger] left[i] == right[i] by {
        if i < a.len() && i < b.len() && i < c.len() {
            crate::byte::lemma_merge_associative(a[i], b[i], c[i]);
        }
    }
    assert(left =~= right);
}

/// Merging with the empty pattern turns every pattern byte into a wildcard.
pub proof fn lemma_merge_empty(a: Seq<PatternByte>)
    ensures
        spec_merge(a, Seq::empty()) == a.map_values(|b: PatternByte| widened(b)),
        spec_merge(Seq::empty(), a) == a.map_values(|b: PatternByte| widened(b)),
{
    assert(spec_merge(a, Seq::empty()) =~= a.map_values(|b: PatternByte| widened(b)));
    assert(spec_merge(Seq::empty(), a) =~= a.map_values(|b: PatternByte| widened(b)));
}

} // verus!

verus! {

/// A pattern byte with the bits outside its mask cleared: what reading its
/// text gives back.
pub open spec fn normalized(b: PatternByte) -> PatternByte {
    PatternByte { byte: b.spec_apply(), mask: b.mask }
}

/// The bytes of an ASCII text.
pub open spec fn ascii_bytes(s: Seq<char>) -> Seq<u8> {
    s.map_values(|c: char| c as u8)
}

/// The texts of the pattern bytes of `p` as bytes, one after the other,
/// without separators.
pub open spec fn packed_text_bytes(p: Seq<PatternByte>) -> Seq<u8>
    decreases p.len(),
{
    if p.len() == 0 {
        seq![]
    } else {
        packed_text_bytes(p.drop_last()) + ascii_bytes(p.last().text())
    }
}

/// The text of a pattern byte is two ASCII characters, neither of them
/// whitespace, the second neither `x` nor `X`; read back, it gives the
/// pattern byte with its masked-out bits cleared.
proof fn lemma_byte_text(b: PatternByte)
    ensures
        b.text().len() == 2,
        vstd::utf8::is_ascii_chars(b.text()),
        !crate::text::is_unicode_whitespace(b.text()[0]),
        !crate::text::is_unicode_whitespace(b.text()[1]),
        ascii_bytes(b.text())[0] != 0x20,
        ascii_bytes(b.text())[1] != 0x20,
        ascii_bytes(b.text())[1] != 0x78,
        ascii_bytes(b.text())[1] != 0x58,
        spec_from_chunk(ascii_bytes(b.text())) == Ok::<
            PatternByte,
            (ByteStringProblem, Seq<u8>),
        >(normalized(b)),
{
    let x = b.byte;
    let hi = x >> 4u8;
    let lo = x & 0x0Fu8;
    assert(hi < 16 && lo < 16) by (bit_vector)
        requires
            hi == x >> 4u8,
            lo == x & 0x0Fu8,
    ;
    crate::text::lemma_hex_digit(hi);
    crate::text::lemma_hex_digit(lo);
    crate::util::lemma_hex_val_digit(hi);
    assert((hi * 16 + lo) as u8 == x & 0xFFu8 && (hi * 16) as u8 == x & 0xF0u8 && lo == x & 0x0Fu8
        && 0u8 == x & 0u8) by (bit_vector)
        requires
            hi == x >> 4u8,
            lo == x & 0x0Fu8,
    ;
    let t = b.text();
    let bs = ascii_bytes(t);
    assert(bs.len() == 2);
    assert(bs[0] == t[0] as u8);
    assert(bs[1] == t[1] as u8);
}

/// The text of a pattern is ASCII; it is empty for the empty pattern and
/// otherwise begins with the text of the first pattern byte and ends with
/// the last character of the text of the last one.
proof fn lemma_pattern_text_shape(p: Seq<PatternByte>)
    ensures
        vstd::utf8::is_ascii_chars(pattern_text(p)),
        p.len() == 0 ==> pattern_text(p).len() == 0,
        p.len() > 0 ==> pattern_text(p).len() >= 2,
        p.len() > 0 ==> pattern_text(p)[0] == p[0].text()[0],
        p.len() > 0 ==> pattern_text(p)[1] == p[0].text()[1],
        p.len() > 0 ==> pattern_text(p).last() == p.last().text()[1],
    decreases p.len(),
{
    if p.len() == 1 {
        lemma_byte_text(p[0]);
    } else if p.len() > 1 {
        let q = p.drop_last();
        lemma_pattern_text_shape(q);
        lemma_byte_text(p.last());
        let t = pattern_text(p);
        assert(t == pattern_text(q) + seq![' '] + p.last().text());
        assert(q[0] == p[0]);
        assert(t[0] == pattern_text(q)[0]);
        assert(t[1] == pattern_text(q)[1]);
        assert forall|i: int| 0 <= i < t.len() implies '\0' <= #[trigger] t[i] <= '\u{7f}' by {
            if i < pattern_text(q).len() {
                assert(t[i] == pattern_text(q)[i]);
            } else if i == pattern_text(q).len() {
            } else {
                assert(t[i] == p.last().text()[i - pattern_text(q).len() - 1]);
            }
        }
    }
}

/// Dropping spaces from two texts one after the other drops them from each.
proof fn lemma_without_spaces_concat(a: Seq<u8>, b: Seq<u8>)
    ensures
        without_spaces(a + b) == without_spaces(a) + without_spaces(b),
    decreases b.len(),
{
    if b.len() == 0 {
        assert(a + b =~= a);
        assert(without_spaces(a) + without_spaces(b) =~= without_spaces(a));
    } else {
        lemma_without_spaces_concat(a, b.drop_last());
        assert((a + b).drop_last() =~= a + b.drop_last());
        assert((a + b).last() == b.last());
        if b.last() != 0x20 {
            assert(without_spaces(a) + without_spaces(b.drop_last()).push(b.last()) =~= (
            without_spaces(a) + without_spaces(b.drop_last())).push(b.last()));
        }
    }
}

/// Two bytes without a space have no space to drop.
proof fn lemma_without_spaces_pair(s: Seq<u8>)
    requires
        s.len() == 2,
        s[0] != 0x20,
        s[1] != 0x20,
    ensures
        without_spaces(s) == s,
{
    let s0 = s.drop_last();
    assert(s0.drop_last() =~= Seq::<u8>::empty());
    assert(without_spaces(s0.drop_last()) =~= Seq::<u8>::empty());
    assert(s0.last() == s[0]);
    assert(without_spaces(s0) =~= seq![s[0]]);
    assert(without_spaces(s) =~= s);
}

/// The bytes of ASCII texts one after the other are the bytes of each.
proof fn lemma_ascii_bytes_concat(a: Seq<char>, b: Seq<char>)
    ensures
        ascii_bytes(a + b) == ascii_bytes(a) + ascii_bytes(b),
{
    assert(ascii_bytes(a + b) =~= ascii_bytes(a) + ascii_bytes(b));
}

/// Without its spaces, the text of a pattern is the texts of its pattern
/// bytes, packed.
proof fn lemma_pattern_text_without_spaces(p: Seq<PatternByte>)
    ensures
        without_spaces(ascii_bytes(pattern_text(p))) == packed_text_bytes(p),
    decreases p.len(),
{
    if p.len() == 0 {
        assert(ascii_bytes(pattern_text(p)) =~= Seq::<u8>::empty());
    } else if p.len() == 1 {
        lemma_byte_text(p[0]);
        lemma_without_spaces_pair(ascii_bytes(p[0].text()));
        assert(p.drop_last() =~= Seq::<PatternByte>::empty());
        assert(packed_text_bytes(p.drop_last()) =~= Seq::<u8>::empty());
        assert(p.last() == p[0]);
        assert(packed_text_bytes(p) =~= ascii_bytes(p[0].text()));
    } else {
        let q = p.drop_last();
        lemma_pattern_text_without_spaces(q);
        lemma_byte_text(p.last());
        let last = ascii_bytes(p.last().text());
        lemma_ascii_bytes_concat(pattern_text(q), seq![' ']);
        lemma_ascii_bytes_concat(pattern_text(q) + seq![' '], p.last().text());
        let front = ascii_bytes(pattern_text(q)) + ascii_bytes(seq![' ']);
        lemma_without_spaces_concat(front, last);
        lemma_without_spaces_concat(ascii_bytes(pattern_text(q)), ascii_bytes(seq![' ']));
        assert(ascii_bytes(seq![' ']) =~= seq![0x20u8]);
        assert(seq![0x20u8].drop_last() =~= Seq::<u8>::empty());
        assert(without_spaces(Seq::<u8>::empty()) =~= Seq::<u8>::empty());
        assert(without_spaces(seq![0x20u8]) =~= Seq::<u8>::empty());
        lemma_without_spaces_pair(last);
        assert(without_spaces(front) =~= without_spaces(ascii_bytes(pattern_text(q))));
    }
}

/// The packed texts of a pattern are two bytes for each pattern byte.
proof fn lemma_packed_len(p: Seq<PatternByte>)
    ensures
        packed_text_bytes(p).len() == 2 * p.len(),
    decreases p.len(),
{
    if p.len() > 0 {
        lemma_packed_len(p.drop_last());
        lemma_byte_text(p.last());
    }
}

/// Reading chunks from an even number of bytes that read well, and then
/// from more bytes, reads the first and then the second.
proof fn lemma_parse_chunks_concat(f: Seq<u8>, g: Seq<u8>)
    requires
        f.len() % 2 == 0,
        spec_parse_chunks(f) is Ok,
    ensures
        spec_parse_chunks(f + g) == prepend_ok(spec_parse_chunks(f)->Ok_0, spec_parse_chunks(g)),
    decreases f.len(),
{
    if f.len() == 0 {
        assert(f + g =~= g);
        match spec_parse_chunks(g) {
            Ok(t) => {
                assert(Seq::<PatternByte>::empty() + t =~= t);
            },
            Err(_) => {},
        }
    } else {
        let fg = f + g;
        assert(fg.take(2) =~= f.take(2));
        assert(fg.skip(2) =~= f.skip(2) + g);
        lemma_parse_chunks_concat(f.skip(2), g);
        let b = spec_from_chunk(f.take(2))->Ok_0;
        let rest = spec_parse_chunks(f.skip(2))->Ok_0;
        match spec_parse_chunks(g) {
            Ok(t) => {
                assert(seq![b] + (rest + t) =~= (seq![b] + rest) + t);
            },
            Err(_) => {},
        }
    }
}

/// The packed texts of a pattern read back as the pattern with its
/// masked-out bits cleared.
proof fn lemma_parse_packed(p: Seq<PatternByte>)
    ensures
        spec_parse_chunks(packed_text_bytes(p)) == Ok::<
            Seq<PatternByte>,
            (ByteStringProblem, Seq<u8>),
        >(p.map_values(|b: PatternByte| normalized(b))),
    decreases p.len(),
{
    if p.len() == 0 {
        assert(p.map_values(|b: PatternByte| normalized(b)) =~= Seq::<PatternByte>::empty());
    } else {
        let q = p.drop_last();
        lemma_parse_packed(q);
        lemma_packed_len(q);
        lemma_byte_text(p.last());
        let last = ascii_bytes(p.last().text());
        lemma_parse_chunks_concat(packed_text_bytes(q), last);
        assert(last.take(2) =~= last);
        assert(last.skip(2) =~= Seq::<u8>::empty());
        assert(spec_parse_chunks(Seq::<u8>::empty()) == Ok::<
            Seq<PatternByte>,
            (ByteStringProblem, Seq<u8>),
        >(Seq::<PatternByte>::empty()));
        assert(seq![normalized(p.last())] + Seq::<PatternByte>::empty() =~= seq![
            normalized(p.last()),
        ]);
        assert(spec_parse_chunks(last) == Ok::<Seq<PatternByte>, (ByteStringProblem, Seq<u8>)>(
            seq![normalized(p.last())],
        ));
        assert(q.map_values(|b: PatternByte| normalized(b)) + seq![normalized(p.last())]
            =~= p.map_values(|b: PatternByte| normalized(b)));
    }
}

/// Reading the text of a pattern gives back the pattern with the bits
/// outside each mask cleared: formatting and parsing agree.
pub proof fn lemma_parse_text_roundtrip(p: Seq<PatternByte>)
    ensures
        spec_parse(pattern_text(p)) == Ok::<Seq<PatternByte>, (ByteStringProblem, Seq<u8>)>(
            p.map_values(|b: PatternByte| normalized(b)),
        ),
{
    let t = pattern_text(p);
    lemma_pattern_text_shape(p);
    if p.len() > 0 {
        lemma_byte_text(p[0]);
        lemma_byte_text(p.last());
    }
    assert(crate::text::trim_start(t) == t);
    assert(crate::text::trim_end(t) == t);
    vstd::utf8::is_ascii_chars_encode_utf8(t);
    let bytes = vstd::utf8::encode_utf8(t);
    assert(bytes =~= ascii_bytes(t));
    if p.len() > 0 {
        assert(bytes[1] == p[0].text()[1] as u8);
        assert(bytes[1] == ascii_bytes(p[0].text())[1]);
    }
    assert(crate::byte::strip_hex_prefix(bytes) == bytes);
    assert(text_payload(t) == ascii_bytes(t));
    lemma_pattern_text_without_spaces(p);
    lemma_parse_packed(p);
}

} // verus!

verus! {

/// Reading the text of a pattern byte gives it back with the bits outside
/// its mask cleared.
pub proof fn lemma_byte_parse_text_roundtrip(b: PatternByte)
    ensures
        spec_from_chunk(text_payload(b.text())) == Ok::<
            PatternByte,
            (ByteStringProblem, Seq<u8>),
        >(normalized(b)),
{
    let t = b.text();
    lemma_byte_text(b);
    assert(crate::text::trim_start(t) == t);
    assert(crate::text::trim_end(t) == t);
    vstd::utf8::is_ascii_chars_encode_utf8(t);
    let bytes = vstd::utf8::encode_utf8(t);
    assert(bytes =~= ascii_bytes(t));
    assert(crate::byte::strip_hex_prefix(bytes) == bytes);
}

} // verus!

verus! {

/// A pattern byte equals a byte exactly where it compares as equal to it,
/// and it matches its own stored byte.
pub proof fn lemma_eq_agrees_with_partial_cmp(p: PatternByte, x: u8)
    ensures
        p.eq_spec(&x) <==> p.partial_cmp_spec(&x) == Some(Ordering::Equal),
        p.matches(p.byte),
{
}

} // verus!

verus! {

/// Comparing a pattern byte with a byte orders the two bytes as numbers once
/// both are masked by the pattern byte's mask; under the full mask this is
/// the order of the stored byte and the byte itself.
pub proof fn lemma_partial_cmp_orders_masked_bytes(p: PatternByte, x: u8)
    ensures
        p.partial_cmp_spec(&x) == Some(Ordering::Less) <==> (p.byte & p.mask.spec_bits()) < (x
            & p.mask.spec_bits()),
        p.partial_cmp_spec(&x) == Some(Ordering::Equal) <==> (p.byte & p.mask.spec_bits()) == (x
            & p.mask.spec_bits()),
        p.partial_cmp_spec(&x) == Some(Ordering::Greater) <==> (p.byte & p.mask.spec_bits()) > (x
            & p.mask.spec_bits()),
        p.mask == Mask::Full ==> (p.partial_cmp_spec(&x) == Some(Ordering::Less) <==> p.byte < x),
        p.mask == Mask::Full ==> (p.partial_cmp_spec(&x) == Some(Ordering::Greater) <==> p.byte
            > x),
{
    let b = p.byte;
    assert(b & 0xFFu8 == b && x & 0xFFu8 == x) by (bit_vector);
}

} // verus!
