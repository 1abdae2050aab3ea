//! Domain names: how a dotted name splits into labels, how labels are laid
//! out on the wire, and what a walk over the wire form yields.

use super::byte_packet_buffer::BytePacketBufferError;
use vstd::prelude::*;
use vstd::slice::*;
use vstd::string::*;
use vstd::utf8::*;

verus! {

/// The octet that separates the labels of a dotted name.
pub const DOT: u8 = 0x2E;

/// The longest label that may be written.
pub const MAX_LABEL: usize = 63;

/// The number of compression pointers that one name may follow.
pub const MAX_JUMPS: usize = 5;

/// A length octet from this value on is the first octet of a pointer.
pub const POINTER_TAG: u8 = 0xC0;

/// The ASCII lower-case form of an octet.
pub open spec fn lower(b: u8) -> u8 {
    if 0x41 <= b <= 0x5A {
        (b + 0x20) as u8
    } else {
        b
    }
}

/// The ASCII lower-case form of each octet of `s`.
pub open spec fn lower_all(s: Seq<u8>) -> Seq<u8> {
    Seq::new(s.len(), |i: int| lower(s[i]))
}

/// The index of the first dot in `s`, or the length of `s` where it has none.
pub open spec fn first_dot(s: Seq<u8>) -> nat
    decreases s.len(),
{
    if s.len() == 0 || s[0] == DOT {
        0
    } else {
        1 + first_dot(s.drop_first())
    }
}

/// The labels of a dotted name: its pieces between dots, in order, without
/// the empty ones.
pub open spec fn labels_of(name: Seq<u8>) -> Seq<Seq<u8>>
    decreases name.len(),
{
    if name.len() == 0 {
        Seq::empty()
    } else {
        let k = first_dot(name);
        let rest = if k < name.len() {
            labels_of(name.skip((k + 1) as int))
        } else {
            Seq::empty()
        };
        if k == 0 {
            rest
        } else {
            seq![name.take(k as int)] + rest
        }
    }
}

/// Every label can be written: none is longer than 63 octets.
pub open spec fn labels_fit(labels: Seq<Seq<u8>>) -> bool {
    forall|i: int| 0 <= i < labels.len() ==> (#[trigger] labels[i]).len() <= MAX_LABEL
}

/// Why a name cannot be written, if it cannot: one of its labels is longer
/// than 63 octets.
pub open spec fn name_problem(name: Seq<u8>) -> Option<BytePacketBufferError> {
    if labels_fit(labels_of(name)) {
        None
    } else {
        Some(BytePacketBufferError::InvalidDomainNameFormat)
    }
}

/// The labels on the wire: each one behind an octet that holds its length.
pub open spec fn labels_wire(labels: Seq<Seq<u8>>) -> Seq<u8>
    decreases labels.len(),
{
    if labels.len() == 0 {
        Seq::empty()
    } else {
        seq![labels[0].len() as u8] + labels[0] + labels_wire(labels.drop_first())
    }
}

/// The wire form of a dotted name: its labels, then a zero octet.
pub open spec fn name_wire(name: Seq<u8>) -> Seq<u8> {
    labels_wire(labels_of(name)).push(0u8)
}

/// What a walk over a name on the wire yields: the labels met, and where the
/// cursor stands afterwards.
pub struct NameWalk {
    pub labels: Seq<Seq<u8>>,
    pub end: int,
}

/// The walk over the name that starts at `p` in `buf`, after `jumps` pointers
/// have been followed already.
///
/// A length octet of `0xC0` or more starts a pointer: its low six bits and the
/// next octet are the offset at which the walk goes on, and the cursor ends
/// behind the first pointer met. A zero octet ends the name. Any other octet
/// is the length of the label that follows it.
pub open spec fn name_at(buf: Seq<u8>, p: int, jumps: nat) -> Result<
    NameWalk,
    BytePacketBufferError,
>
    decreases MAX_JUMPS - jumps, buf.len() - p,
{
    if p < 0 || p >= buf.len() {
        Err(BytePacketBufferError::UnexpectedEof)
    } else if buf[p] >= POINTER_TAG {
        if p + 1 >= buf.len() {
            Err(BytePacketBufferError::UnexpectedEof)
        } else if jumps >= MAX_JUMPS {
            Err(BytePacketBufferError::ExceededJumpLimit)
        } else {
            let target = (buf[p] - POINTER_TAG) * 256 + buf[p + 1];
            if target >= buf.len() {
                Err(BytePacketBufferError::MalformedPointer)
            } else {
                match name_at(buf, target, jumps + 1) {
                    Ok(walk) => Ok(NameWalk { labels: walk.labels, end: p + 2 }),
                    Err(e) => Err(e),
                }
            }
        }
    } else if buf[p] == 0 {
        Ok(NameWalk { labels: Seq::empty(), end: p + 1 })
    } else {
        let next = p + 1 + buf[p];
        if next > buf.len() {
            Err(BytePacketBufferError::UnexpectedEof)
        } else {
            match name_at(buf, next, jumps) {
                Ok(walk) => Ok(
                    NameWalk {
                        labels: seq![buf.subrange(p + 1, next)] + walk.labels,
                        end: walk.end,
                    },
                ),
                Err(e) => Err(e),
            }
        }
    }
}

/// The whole walk, given the labels met so far, where the cursor is to end
/// if a pointer was met, and the walk that is still to be made.
pub open spec fn walk_after(
    done: Seq<Seq<u8>>,
    pointer_end: Option<int>,
    rest: Result<NameWalk, BytePacketBufferError>,
) -> Result<NameWalk, BytePacketBufferError> {
    match rest {
        Ok(walk) => Ok(
            NameWalk {
                labels: done + walk.labels,
                end: match pointer_end {
                    Some(end) => end,
                    None => walk.end,
                },
            },
        ),
        Err(e) => Err(e),
    }
}

/// The text that `String::from_utf8_lossy` makes of octets that are not
/// valid UTF-8.
pub uninterp spec fn lossy_text(bytes: Seq<u8>) -> Seq<char>;

/// The text of a label: its octets in ASCII lower case, read as UTF-8.
pub open spec fn label_text(label: Seq<u8>) -> Seq<char> {
    let low = lower_all(label);
    if valid_utf8(low) {
        decode_utf8(low)
    } else {
        lossy_text(low)
    }
}

/// The dotted text of a sequence of labels.
pub open spec fn name_text(labels: Seq<Seq<u8>>) -> Seq<char>
    decreases labels.len(),
{
    if labels.len() == 0 {
        Seq::empty()
    } else if labels.len() == 1 {
        label_text(labels[0])
    } else {
        name_text(labels.drop_last()) + seq!['.'] + label_text(labels.last())
    }
}

/// The views of a vector of labels.
pub open spec fn views(labels: Seq<Vec<u8>>) -> Seq<Seq<u8>> {
    Seq::new(labels.len(), |i: int| labels[i]@)
}

/// The first dot lies within the name; no dot stands before it, and where it
/// is not the end of the name, a dot stands there.
pub proof fn lemma_first_dot_bounds(s: Seq<u8>)
    ensures
        first_dot(s) <= s.len(),
        forall|t: int| 0 <= t < first_dot(s) ==> s[t] != DOT,
        first_dot(s) < s.len() ==> s[first_dot(s) as int] == DOT,
    decreases s.len(),
{
    if !(s.len() == 0 || s[0] == DOT) {
        lemma_first_dot_bounds(s.drop_first());
        assert forall|t: int| 0 <= t < first_dot(s) implies s[t] != DOT by {
            if t > 0 {
                assert(s[t] == s.drop_first()[t - 1]);
            }
        }
    }
}

/// The first dot is where a dot stands and none stands before.
pub proof fn lemma_first_dot_is(s: Seq<u8>, k: int)
    requires
        0 <= k <= s.len(),
        forall|t: int| 0 <= t < k ==> s[t] != DOT,
        k == s.len() || s[k] == DOT,
    ensures
        first_dot(s) == k,
    decreases k,
{
    if k > 0 {
        let tail = s.drop_first();
        assert forall|t: int| 0 <= t < k - 1 implies tail[t] != DOT by {
            assert(tail[t] == s[t + 1]);
        }
        lemma_first_dot_is(tail, k - 1);
    }
}

/// One more label on the wire follows the others.
pub proof fn lemma_labels_wire_push(labels: Seq<Seq<u8>>, l: Seq<u8>)
    ensures
        labels_wire(labels.push(l)) == labels_wire(labels) + (seq![l.len() as u8] + l),
    decreases labels.len(),
{
    let all = labels.push(l);
    if labels.len() == 0 {
        assert(labels_wire(all.drop_first()) =~= Seq::<u8>::empty());
    } else {
        assert(all.drop_first() =~= labels.drop_first().push(l));
        lemma_labels_wire_push(labels.drop_first(), l);
    }
}

/// Labels on the wire follow each other.
pub proof fn lemma_labels_wire_concat(a: Seq<Seq<u8>>, b: Seq<Seq<u8>>)
    ensures
        labels_wire(a + b) == labels_wire(a) + labels_wire(b),
    decreases a.len(),
{
    if a.len() > 0 {
        assert((a + b).drop_first() =~= a.drop_first() + b);
        lemma_labels_wire_concat(a.drop_first(), b);
    }
}

/// The wire form of the first `i` labels is the start of the wire form of
/// all of them, and the next label follows it.
pub proof fn lemma_labels_wire_take(labels: Seq<Seq<u8>>, i: int)
    requires
        0 <= i < labels.len(),
    ensures
        labels_wire(labels.take(i + 1)) == labels_wire(labels.take(i)) + (seq![
            labels[i].len() as u8,
        ] + labels[i]),
        labels_wire(labels.take(i + 1)).len() <= labels_wire(labels).len(),
{
    assert(labels.take(i + 1) =~= labels.take(i).push(labels[i]));
    lemma_labels_wire_push(labels.take(i), labels[i]);
    assert(labels =~= labels.take(i + 1) + labels.skip(i + 1));
    lemma_labels_wire_concat(labels.take(i + 1), labels.skip(i + 1));
}

/// The ASCII lower-case form of an octet.
pub fn to_lower(b: u8) -> (r: u8)
    ensures
        r == lower(b),
{
    if 0x41 <= b && b <= 0x5A {
        b + 0x20
    } else {
        b
    }
}

/// `String::from_utf8_lossy`, with its result as an owned string. It is a
/// function of the octets alone; octets that are valid UTF-8 give the text
/// that they encode.
#[verifier::external_body]
fn utf8_lossy(bytes: &[u8]) -> (s: String)
    ensures
        s@ == (if valid_utf8(bytes@) {
            decode_utf8(bytes@)
        } else {
            lossy_text(bytes@)
        }),
{
    String::from_utf8_lossy(bytes).into_owned()
}

/// The ASCII lower-case form of each of `bytes`.
pub fn lower_bytes(bytes: &[u8]) -> (low: Vec<u8>)
    ensures
        low@ == lower_all(bytes@),
{
    let n: usize = bytes.len();
    let mut low: Vec<u8> = Vec::new();
    let mut i: usize = 0;
    while i < n
        invariant
            i <= n,
            n == bytes@.len(),
            low@ == lower_all(bytes@.take(i as int)),
        decreases n - i,
    {
        low.push(to_lower(bytes[i]));
        i = i + 1;
    }
    low
}

/// The text of a label.
pub fn label_to_text(label: &[u8]) -> (s: String)
    ensures
        s@ == label_text(label@),
{
    let low: Vec<u8> = lower_bytes(label);
    utf8_lossy(low.as_slice())
}

/// The octets of a name that is held as text.
pub open spec fn name_bytes(name: Seq<char>) -> Seq<u8> {
    encode_utf8(name)
}

/// A name can be written: none of its labels is longer than 63 octets.
pub open spec fn name_ok(name: Seq<char>) -> bool {
    labels_fit(labels_of(name_bytes(name)))
}

/// Splits a dotted name into its labels.
pub fn split_labels(name: &[u8]) -> (labels: Vec<Vec<u8>>)
    ensures
        views(labels@) == labels_of(name@),
{
    let n: usize = name.len();
    let mut labels: Vec<Vec<u8>> = Vec::new();
    let mut i: usize = 0;
    assert(name@.skip(0) =~= name@);
    while i < n
        invariant
            i <= n,
            n == name@.len(),
            labels_of(name@) == views(labels@) + labels_of(name@.skip(i as int)),
        decreases n - i,
    {
        let mut j: usize = i;
        while j < n && name[j] != DOT
            invariant
                i <= j <= n,
                n == name@.len(),
                forall|t: int| i <= t < j ==> name@[t] != DOT,
            decreases n - j,
        {
            j = j + 1;
        }
        let ghost rest = name@.skip(i as int);
        proof {
            lemma_first_dot_is(rest, j - i);
        }
        if j > i {
            let piece: Vec<u8> = slice_to_vec(slice_subrange(name, i, j));
            labels.push(piece);
            proof {
                assert(piece@ =~= rest.take(j - i));
            }
        }
        let next: usize = if j < n {
            j + 1
        } else {
            j
        };
        proof {
            if j < n {
                assert(rest.skip(j - i + 1) =~= name@.skip(next as int));
            }
        }
        i = next;
    }
    labels
}

/// Whether `name` can be written.
pub fn is_writable(name: &str) -> (r: bool)
    ensures
        r == name_ok(name@),
{
    let labels: Vec<Vec<u8>> = split_labels(name.as_bytes());
    let ghost all = views(labels@);
    let count: usize = labels.len();
    let mut i: usize = 0;
    while i < count
        invariant
            i <= count,
            count == labels@.len(),
            all == views(labels@),
            all == labels_of(name_bytes(name@)),
            forall|k: int| 0 <= k < i ==> (#[trigger] all[k]).len() <= MAX_LABEL,
        decreases count - i,
    {
        if labels[i].len() > MAX_LABEL {
            assert(all[i as int].len() > MAX_LABEL);
            return false;
        }
        i = i + 1;
    }
    true
}

/// The labels of a name without regard to the case of ASCII letters.
pub open spec fn domain_labels(name: Seq<char>) -> Seq<Seq<u8>> {
    labels_of(lower_all(name_bytes(name)))
}

/// `zone` is `qname` or a parent domain of it: the labels of `zone` are the
/// last labels of `qname`, without regard to the case of ASCII letters.
pub open spec fn is_within(qname: Seq<char>, zone: Seq<char>) -> bool {
    let q = domain_labels(qname);
    let z = domain_labels(zone);
    z.len() <= q.len() && q.skip(q.len() - z.len()) == z
}

/// Whether two sequences of octets are the same.
pub fn same_bytes(a: &[u8], b: &[u8]) -> (r: bool)
    ensures
        r == (a@ == b@),
{
    if a.len() != b.len() {
        return false;
    }
    let n: usize = a.len();
    let mut i: usize = 0;
    while i < n
        invariant
            i <= n,
            n == a@.len(),
            n == b@.len(),
            forall|k: int| 0 <= k < i ==> a@[k] == b@[k],
        decreases n - i,
    {
        if a[i] != b[i] {
            return false;
        }
        i = i + 1;
    }
    assert(a@ =~= b@);
    true
}

/// The labels of `name` in ASCII lower case.
pub fn lower_labels(name: &str) -> (labels: Vec<Vec<u8>>)
    ensures
        views(labels@) == domain_labels(name@),
{
    let low: Vec<u8> = lower_bytes(name.as_bytes());
    split_labels(low.as_slice())
}

/// Whether `zone` is `qname` or a parent domain of it.
pub fn within(qname: &str, zone: &str) -> (r: bool)
    ensures
        r == is_within(qname@, zone@),
{
    let q: Vec<Vec<u8>> = lower_labels(qname);
    let z: Vec<Vec<u8>> = lower_labels(zone);
    if z.len() > q.len() {
        return false;
    }
    let shift: usize = q.len() - z.len();
    let n: usize = z.len();
    let ghost qs = views(q@);
    let ghost zs = views(z@);
    let mut i: usize = 0;
    while i < n
        invariant
            i <= n,
            n == z@.len(),
            shift + n == q@.len(),
            shift + n <= usize::MAX,
            qs == views(q@),
            zs == views(z@),
            qs == domain_labels(qname@),
            zs == domain_labels(zone@),
            forall|k: int| 0 <= k < i ==> qs[shift + k] == zs[k],
        decreases n - i,
    {
        if !same_bytes(q[shift + i].as_slice(), z[i].as_slice()) {
            proof {
                assert(qs[shift + i] != zs[i as int]);
            }
            return false;
        }
        i = i + 1;
    }
    proof {
        assert(qs.skip(shift as int) =~= zs);
    }
    true
}

} // verus!
