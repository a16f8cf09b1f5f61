use vstd::prelude::*;
use crate::codec::{fragments, lemma_fragments_len, NEWLINE};

verus! {

/// The carriage return that may stand before a line terminator.
pub const CR: u8 = 0x0d;

pub open spec fn strip_cr(l: Seq<u8>) -> Seq<u8> {
    if l.len() > 0 && l.last() == CR {
        l.drop_last()
    } else {
        l
    }
}

/// The lines of a text file as a line reader yields them: a line ends at a
/// line terminator, which is dropped with a carriage return before it; a
/// last line without terminator counts when it is not empty.
pub open spec fn text_lines(s: Seq<u8>) -> Seq<Seq<u8>> {
    let f = fragments(s);
    let ended = f.drop_last().map_values(|l: Seq<u8>| strip_cr(l));
    if f.last().len() == 0 {
        ended
    } else {
        ended.push(f.last())
    }
}

pub open spec fn is_digit(b: u8) -> bool {
    0x30 <= b <= 0x39
}

/// The number that the decimal digits `s` write.
pub open spec fn digits_value(s: Seq<u8>) -> nat
    decreases s.len(),
{
    if s.len() == 0 {
        0
    } else {
        digits_value(s.drop_last()) * 10 + (s.last() - 0x30) as nat
    }
}

/// The digits of a length field: what follows an optional leading `+`.
pub open spec fn length_digits(s: Seq<u8>) -> Seq<u8> {
    if s.len() > 0 && s[0] == 0x2b {
        s.subrange(1, s.len() as int)
    } else {
        s
    }
}

/// `s` writes a length: one or more decimal digits after an optional `+`,
/// of a value that fits in `usize`.
pub open spec fn is_length(s: Seq<u8>) -> bool {
    let d = length_digits(s);
    &&& d.len() > 0
    &&& forall|i: int| 0 <= i < d.len() ==> is_digit(d[i])
    &&& digits_value(d) <= usize::MAX
}

/// Why the two manifest files of an index do not make a header.
#[derive(Clone, Copy, Debug, PartialEq, Eq, Structural)]
pub enum HeaderError {
    /// The name and length files have different numbers of lines.
    LineCountMismatch { names: usize, lengths: usize },
    /// The length on this line (counted from 0) is not a number.
    BadLength { line: usize },
}

/// The contigs of an index, in the order whose positions are the contig ids
/// of alignment records.
pub struct ContigHeader {
    names: Vec<Vec<u8>>,
    lengths: Vec<usize>,
}

impl ContigHeader {
    #[verifier::type_invariant]
    spec fn paired_up(&self) -> bool {
        self.names@.len() == self.lengths@.len()
    }
}

impl View for ContigHeader {
    type V = Seq<(Seq<u8>, nat)>;

    closed spec fn view(&self) -> Seq<(Seq<u8>, nat)> {
        Seq::new(self.names@.len(), |i: int| (self.names@[i]@, self.lengths@[i] as nat))
    }
}

/// The header that the two manifests give: the `i`-th name with the value
/// of the `i`-th length.
pub open spec fn zipped(names: Seq<Seq<u8>>, lengths: Seq<Seq<u8>>) -> Seq<(Seq<u8>, nat)> {
    Seq::new(names.len(), |i: int| (names[i], digits_value(length_digits(lengths[i]))))
}

proof fn lemma_digits_monotone(s: Seq<u8>, i: int)
    requires
        0 <= i <= s.len(),
        forall|j: int| 0 <= j < s.len() ==> is_digit(s[j]),
    ensures
        digits_value(s.subrange(0, i)) <= digits_value(s),
    decreases s.len() - i,
{
    if i < s.len() {
        lemma_digits_monotone(s, i + 1);
        assert(s.subrange(0, i + 1).drop_last() =~= s.subrange(0, i));
    } else {
        assert(s.subrange(0, i) =~= s);
    }
}

proof fn lemma_digits_step(d: Seq<u8>, k: int)
    requires
        0 <= k < d.len(),
    ensures
        digits_value(d.subrange(0, k + 1)) == digits_value(d.subrange(0, k)) * 10 + (d[k] - 0x30) as nat,
{
    assert(d.subrange(0, k + 1).drop_last() =~= d.subrange(0, k));
    assert(d.subrange(0, k + 1).last() == d[k]);
}

proof fn lemma_not_length(s: Seq<u8>, k: int)
    requires
        0 <= k < length_digits(s).len(),
        !is_digit(length_digits(s)[k]) || digits_value(length_digits(s).subrange(0, k + 1)) > usize::MAX,
    ensures
        !is_length(s),
{
    let d = length_digits(s);
    if is_length(s) {
        assert(is_digit(d[k]));
        lemma_digits_monotone(d, k + 1);
    }
}

/// Splits a text into lines, the way a line reader does.
pub fn split_text_lines(s: &[u8]) -> (r: Vec<Vec<u8>>)
    ensures
        r@.map_values(|l: Vec<u8>| l@) == text_lines(s@),
{
    let mut out: Vec<Vec<u8>> = Vec::new();
    let mut cur: Vec<u8> = Vec::new();
    let ghost mut done: Seq<Seq<u8>> = Seq::empty();
    let mut i: usize = 0;
    while i < s.len()
        invariant
            0 <= i <= s@.len(),
            fragments(s@.subrange(0, i as int)) == done.push(cur@),
            out@.map_values(|l: Vec<u8>| l@) == done.map_values(|l: Seq<u8>| strip_cr(l)),
        decreases s@.len() - i,
    {
        let b = s[i];
        proof {
            assert(s@.subrange(0, i + 1).drop_last() =~= s@.subrange(0, i as int));
            lemma_fragments_len(s@.subrange(0, i as int));
        }
        if b == NEWLINE {
            let ghost frag = cur@;
            let n = cur.len();
            if n > 0 && cur[n - 1] == CR {
                cur.pop();
            }
            proof {
                assert(cur@ =~= strip_cr(frag));
            }
            let ghost prev = out@;
            out.push(cur);
            proof {
                assert(out@ =~= prev.push(out@.last()));
                assert(out@.map_values(|l: Vec<u8>| l@) =~= prev.map_values(|l: Vec<u8>| l@).push(
                    strip_cr(frag),
                ));
                assert(done.push(frag).map_values(|l: Seq<u8>| strip_cr(l)) =~= done.map_values(
                    |l: Seq<u8>| strip_cr(l),
                ).push(strip_cr(frag)));
                done = done.push(frag);
            }
            cur = Vec::new();
            proof {
                assert(fragments(s@.subrange(0, i + 1)) =~= done.push(cur@));
            }
        } else {
            let ghost prev_cur = cur@;
            cur.push(b);
            proof {
                assert(done.push(prev_cur).update(done.len() as int, prev_cur.push(b)) =~= done.push(cur@));
            }
        }
        i = i + 1;
    }
    proof {
        assert(s@.subrange(0, i as int) =~= s@);
        assert(fragments(s@).drop_last() =~= done);
    }
    if cur.len() > 0 {
        let ghost prev = out@;
        let ghost last = cur@;
        out.push(cur);
        proof {
            assert(out@.map_values(|l: Vec<u8>| l@) =~= done.map_values(|l: Seq<u8>| strip_cr(l)).push(
                last,
            )) by {
                assert(out@ =~= prev.push(out@.last()));
            }
        }
    }
    out
}

/// Reads a length field: decimal digits after an optional `+`.
pub fn parse_length(s: &[u8]) -> (r: Option<usize>)
    ensures
        r is Some <==> is_length(s@),
        r matches Some(v) ==> v == digits_value(length_digits(s@)),
{
    let start: usize = if s.len() > 0 && s[0] == 0x2b {
        1
    } else {
        0
    };
    let ghost d = length_digits(s@);
    proof {
        assert(d =~= s@.subrange(start as int, s@.len() as int));
    }
    if start >= s.len() {
        return None;
    }
    let mut v: usize = 0;
    let mut i: usize = start;
    while i < s.len()
        invariant
            start <= i <= s@.len(),
            d == s@.subrange(start as int, s@.len() as int),
            d == length_digits(s@),
            d.len() > 0,
            forall|j: int| 0 <= j < i - start ==> is_digit(d[j]),
            v == digits_value(d.subrange(0, i - start)),
        decreases s@.len() - i,
    {
        let b = s[i];
        proof {
            assert(d[i - start] == b);
            lemma_digits_step(d, i - start);
        }
        if b < 0x30 || b > 0x39 {
            proof {
                lemma_not_length(s@, i - start);
            }
            return None;
        }
        let digit = (b - 0x30) as usize;
        match v.checked_mul(10) {
            Some(m) => match m.checked_add(digit) {
                Some(n) => {
                    v = n;
                },
                None => {
                    proof {
                        lemma_not_length(s@, i - start);
                    }
                    return None;
                },
            },
            None => {
                proof {
                    assert(digits_value(d.subrange(0, i - start + 1)) >= v * 10) by (nonlinear_arith)
                        requires
                            digits_value(d.subrange(0, i - start + 1)) == v * 10 + digit,
                    ;
                    lemma_not_length(s@, i - start);
                }
                return None;
            },
        }
        i = i + 1;
    }
    proof {
        assert(d.subrange(0, i - start) =~= d);
    }
    Some(v)
}

impl ContigHeader {
    /// The header named by an index's contig-name and contig-length
    /// manifests, zipped line by line.
    pub fn from_manifests(names_text: &[u8], lengths_text: &[u8]) -> (r: Result<ContigHeader, HeaderError>)
        ensures
            ({
                let names = text_lines(names_text@);
                let lengths = text_lines(lengths_text@);
                &&& r is Ok <==> (names.len() == lengths.len() && forall|i: int|
                    0 <= i < lengths.len() ==> is_length(#[trigger] lengths[i]))
                &&& r matches Ok(h) ==> h@ == zipped(names, lengths)
                &&& r matches Err(HeaderError::LineCountMismatch { names: n, lengths: m }) ==> {
                    &&& names.len() != lengths.len()
                    &&& n == names.len()
                    &&& m == lengths.len()
                }
                &&& r matches Err(HeaderError::BadLength { line }) ==> {
                    &&& names.len() == lengths.len()
                    &&& line < lengths.len()
                    &&& !is_length(lengths[line as int])
                    &&& forall|i: int| 0 <= i < line ==> is_length(#[trigger] lengths[i])
                }
            }),
    {
        let names = split_text_lines(names_text);
        let length_lines = split_text_lines(lengths_text);
        let ghost nl = text_lines(names_text@);
        let ghost ll = text_lines(lengths_text@);
        proof {
            assert(names@.len() == nl.len() && forall|i: int| 0 <= i < nl.len() ==> names@[i]@ == nl[i]) by {
                assert(names@.map_values(|l: Vec<u8>| l@).len() == nl.len());
            }
            assert(length_lines@.len() == ll.len()) by {
                assert(length_lines@.map_values(|l: Vec<u8>| l@).len() == ll.len());
            }
        }
        if names.len() != length_lines.len() {
            return Err(HeaderError::LineCountMismatch { names: names.len(), lengths: length_lines.len() });
        }
        let mut lengths: Vec<usize> = Vec::new();
        let mut i: usize = 0;
        while i < length_lines.len()
            invariant
                0 <= i <= length_lines@.len(),
                length_lines@.len() == ll.len(),
                nl == text_lines(names_text@),
                ll == text_lines(lengths_text@),
                nl.len() == ll.len(),
                names@.map_values(|l: Vec<u8>| l@) == nl,
                length_lines@.map_values(|l: Vec<u8>| l@) == ll,
                lengths@.len() == i,
                forall|j: int| 0 <= j < i ==> is_length(#[trigger] ll[j]),
                forall|j: int| 0 <= j < i ==> #[trigger] lengths@[j] == digits_value(length_digits(ll[j])),
            decreases length_lines@.len() - i,
        {
            proof {
                assert(length_lines@[i as int]@ == ll[i as int]) by {
                    assert(length_lines@.map_values(|l: Vec<u8>| l@)[i as int] == length_lines@[i as int]@);
                }
            }
            match parse_length(length_lines[i].as_slice()) {
                Some(v) => {
                    lengths.push(v);
                },
                None => {
                    return Err(HeaderError::BadLength { line: i });
                },
            }
            i = i + 1;
        }
        let h = ContigHeader { names, lengths };
        proof {
            assert(h@ =~= zipped(nl, ll)) by {
                assert forall|j: int| 0 <= j < nl.len() implies names@[j]@ == nl[j] by {
                    assert(names@.map_values(|l: Vec<u8>| l@)[j] == names@[j]@);
                }
            }
        }
        Ok(h)
    }

    /// The number of contigs.
    pub fn len(&self) -> (r: usize)
        ensures
            r == self@.len(),
    {
        self.names.len()
    }

    /// The name of contig `tid`.
    pub fn name(&self, tid: usize) -> (r: &Vec<u8>)
        requires
            tid < self@.len(),
        ensures
            r@ == self@[tid as int].0,
    {
        &self.names[tid]
    }

    /// The length of contig `tid`.
    pub fn length(&self, tid: usize) -> (r: usize)
        requires
            tid < self@.len(),
        ensures
            r == self@[tid as int].1,
    {
        proof {
            use_type_invariant(self);
        }
        self.lengths[tid]
    }
}

} // verus!
