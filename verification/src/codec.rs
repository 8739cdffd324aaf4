//! The binary form in which catalogs and the record of installations are
//! kept on disk.
//!
//! Everything is written with its length in front: a number as eight bytes,
//! least significant first; a text as the number of bytes of its UTF-8 form
//! and then those bytes; a list as the number of its elements and then the
//! elements. Reading is the inverse of writing, which this module proves.

use vstd::bytes::{
    lemma_auto_spec_u64_to_from_le_bytes, spec_u64_from_le_bytes, spec_u64_to_le_bytes,
    u64_from_le_bytes, u64_to_le_bytes,
};
use crate::installed::{InstalledPackage, InstalledPackageView, InstalledPackages};
use crate::package::{Package, PackageView};
use crate::storage::{
    CollectionPackages, CollectionView, PackageGroup, PackageGroupView, RepositoryPackages,
};
use vstd::prelude::*;
use vstd::utf8::{decode_utf8, encode_utf8, valid_utf8};

verus! {

/// `String::from_utf8`: the text that `bytes` encode in UTF-8, or nothing
/// when they are not valid UTF-8. This is what the documentation of the
/// function says, put in the terms of the model of UTF-8 that this crate
/// reasons with.
#[verifier::external_body]
fn text_from_utf8(bytes: &[u8]) -> (r: Option<String>)
    ensures
        r is Some <==> valid_utf8(bytes@),
        r is Some ==> r->Some_0@ == decode_utf8(bytes@),
{
    String::from_utf8(bytes.to_vec()).ok()
}

/// A value with a binary form.
pub trait Codec: Sized + DeepView {
    /// Whether the value is small enough to be written.
    spec fn fits(v: Self::V) -> bool;

    /// The binary form of a value.
    spec fn encoding(v: Self::V) -> Seq<u8>;

    /// The value whose binary form begins at position `at` of `b`, and the
    /// position after it.
    spec fn parse(b: Seq<u8>, at: int) -> Option<(Self::V, int)>;

    /// Reading what was written gives the value that was written, whatever
    /// stands before and after it.
    proof fn lemma_parse_encoding(v: Self::V, pre: Seq<u8>, post: Seq<u8>)
        requires
            Self::fits(v),
        ensures
            Self::parse(pre + Self::encoding(v) + post, pre.len() as int) == Some(
                (v, (pre.len() + Self::encoding(v).len()) as int),
            ),
    ;

    /// Appends the binary form of the value to `out`.
    fn write(&self, out: &mut Vec<u8>)
        ensures
            final(out)@ == old(out)@ + Self::encoding(self.deep_view()),
            Self::fits(self.deep_view()),
    ;

    /// Reads a value at position `at` of `b`.
    fn read(b: &[u8], at: usize) -> (r: Option<(Self, usize)>)
        ensures
            match r {
                Some((value, next)) => Self::parse(b@, at as int) == Some(
                    (value.deep_view(), next as int),
                ) && at <= next <= b.len(),
                None => Self::parse(b@, at as int) is None,
            },
    ;
}

impl Codec for u64 {
    open spec fn fits(v: u64) -> bool {
        true
    }

    open spec fn encoding(v: u64) -> Seq<u8> {
        spec_u64_to_le_bytes(v)
    }

    open spec fn parse(b: Seq<u8>, at: int) -> Option<(u64, int)> {
        if 0 <= at && at + 8 <= b.len() {
            Some((spec_u64_from_le_bytes(b.subrange(at, at + 8)), at + 8))
        } else {
            None
        }
    }

    proof fn lemma_parse_encoding(v: u64, pre: Seq<u8>, post: Seq<u8>) {
        lemma_auto_spec_u64_to_from_le_bytes();
        let b = pre + Self::encoding(v) + post;
        assert(b.subrange(pre.len() as int, pre.len() as int + 8) =~= spec_u64_to_le_bytes(v));
    }

    fn write(&self, out: &mut Vec<u8>) {
        let mut bytes = u64_to_le_bytes(*self);
        out.append(&mut bytes);
    }

    fn read(b: &[u8], at: usize) -> (r: Option<(Self, usize)>) {
        if b.len() < 8 || at > b.len() - 8 {
            return None;
        }
        let value = u64_from_le_bytes(vstd::slice::slice_subrange(b, at, at + 8));
        Some((value, at + 8))
    }
}

/// The number that stands for a signed number in its binary form: the
/// number moved up by 2^63, so that it is not negative.
pub open spec fn shifted(v: i64) -> u64 {
    (v + 0x8000_0000_0000_0000) as u64
}

impl Codec for i64 {
    open spec fn fits(v: i64) -> bool {
        true
    }

    open spec fn encoding(v: i64) -> Seq<u8> {
        spec_u64_to_le_bytes(shifted(v))
    }

    open spec fn parse(b: Seq<u8>, at: int) -> Option<(i64, int)> {
        if 0 <= at && at + 8 <= b.len() {
            Some(
                (
                    (spec_u64_from_le_bytes(b.subrange(at, at + 8)) - 0x8000_0000_0000_0000) as i64,
                    at + 8,
                ),
            )
        } else {
            None
        }
    }

    proof fn lemma_parse_encoding(v: i64, pre: Seq<u8>, post: Seq<u8>) {
        lemma_auto_spec_u64_to_from_le_bytes();
        let b = pre + Self::encoding(v) + post;
        assert(b.subrange(pre.len() as int, pre.len() as int + 8) =~= spec_u64_to_le_bytes(shifted(v)));
    }

    fn write(&self, out: &mut Vec<u8>) {
        let v = *self;
        let raised: u64 = if v >= 0 {
            v as u64 + 0x8000_0000_0000_0000u64
        } else {
            (v + i64::MAX + 1) as u64
        };
        let mut bytes = u64_to_le_bytes(raised);
        out.append(&mut bytes);
    }

    fn read(b: &[u8], at: usize) -> (r: Option<(Self, usize)>) {
        if b.len() < 8 || at > b.len() - 8 {
            return None;
        }
        let raised = u64_from_le_bytes(vstd::slice::slice_subrange(b, at, at + 8));
        let value: i64 = if raised >= 0x8000_0000_0000_0000u64 {
            (raised - 0x8000_0000_0000_0000u64) as i64
        } else {
            (raised as i64 - i64::MAX) - 1
        };
        Some((value, at + 8))
    }
}

impl Codec for String {
    open spec fn fits(v: Seq<char>) -> bool {
        encode_utf8(v).len() <= u64::MAX
    }

    open spec fn encoding(v: Seq<char>) -> Seq<u8> {
        spec_u64_to_le_bytes(encode_utf8(v).len() as u64) + encode_utf8(v)
    }

    open spec fn parse(b: Seq<u8>, at: int) -> Option<(Seq<char>, int)> {
        if 0 <= at && at + 8 <= b.len() {
            let n = spec_u64_from_le_bytes(b.subrange(at, at + 8));
            let bytes = b.subrange(at + 8, at + 8 + n);
            if at + 8 + n <= b.len() && valid_utf8(bytes) {
                Some((decode_utf8(bytes), at + 8 + n))
            } else {
                None
            }
        } else {
            None
        }
    }

    proof fn lemma_parse_encoding(v: Seq<char>, pre: Seq<u8>, post: Seq<u8>) {
        lemma_auto_spec_u64_to_from_le_bytes();
        let text = encode_utf8(v);
        let n = text.len() as u64;
        let b = pre + Self::encoding(v) + post;
        let at = pre.len() as int;
        assert(b.subrange(at, at + 8) =~= spec_u64_to_le_bytes(n));
        assert(b.subrange(at + 8, at + 8 + n) =~= text);
        vstd::utf8::encode_utf8_valid_utf8(v);
        vstd::utf8::encode_utf8_decode_utf8(v);
    }

    fn write(&self, out: &mut Vec<u8>) {
        let bytes = self.as_str().as_bytes();
        let n = bytes.len() as u64;
        let mut head = u64_to_le_bytes(n);
        out.append(&mut head);
        let mut body = vstd::slice::slice_to_vec(bytes);
        out.append(&mut body);
        assert(out@ =~= old(out)@ + Self::encoding(self.deep_view()));
    }

    fn read(b: &[u8], at: usize) -> (r: Option<(Self, usize)>) {
        if b.len() < 8 || at > b.len() - 8 {
            return None;
        }
        let n = u64_from_le_bytes(vstd::slice::slice_subrange(b, at, at + 8));
        let start = at + 8;
        if n > (b.len() - start) as u64 {
            return None;
        }
        let end = start + n as usize;
        match text_from_utf8(vstd::slice::slice_subrange(b, start, end)) {
            Some(text) => Some((text, end)),
            None => None,
        }
    }
}

impl Codec for Option<String> {
    open spec fn fits(v: Option<Seq<char>>) -> bool {
        match v {
            Some(text) => String::fits(text),
            None => true,
        }
    }

    open spec fn encoding(v: Option<Seq<char>>) -> Seq<u8> {
        match v {
            Some(text) => seq![1u8] + String::encoding(text),
            None => seq![0u8],
        }
    }

    open spec fn parse(b: Seq<u8>, at: int) -> Option<(Option<Seq<char>>, int)> {
        if 0 <= at < b.len() {
            if b[at] == 0 {
                Some((None, at + 1))
            } else if b[at] == 1 {
                match String::parse(b, at + 1) {
                    Some((text, next)) => Some((Some(text), next)),
                    None => None,
                }
            } else {
                None
            }
        } else {
            None
        }
    }

    proof fn lemma_parse_encoding(v: Option<Seq<char>>, pre: Seq<u8>, post: Seq<u8>) {
        match v {
            Some(text) => {
                String::lemma_parse_encoding(text, pre + seq![1u8], post);
                assert(pre + seq![1u8] + String::encoding(text) + post =~= pre + Self::encoding(v)
                    + post);
            },
            None => {},
        }
    }

    fn write(&self, out: &mut Vec<u8>) {
        match self {
            Some(text) => {
                out.push(1u8);
                text.write(out);
                assert(out@ =~= old(out)@ + Self::encoding(self.deep_view()));
            },
            None => {
                out.push(0u8);
                assert(out@ =~= old(out)@ + Self::encoding(self.deep_view()));
            },
        }
    }

    fn read(b: &[u8], at: usize) -> (r: Option<(Self, usize)>) {
        if at >= b.len() {
            return None;
        }
        if b[at] == 0 {
            Some((None, at + 1))
        } else if b[at] == 1 {
            match String::read(b, at + 1) {
                Some((text, next)) => Some((Some(text), next)),
                None => None,
            }
        } else {
            None
        }
    }
}

/// The binary forms of the elements of a list, one after the other.
pub open spec fn encode_items<T: Codec>(items: Seq<T::V>) -> Seq<u8>
    decreases items.len(),
{
    if items.len() == 0 {
        Seq::empty()
    } else {
        encode_items::<T>(items.drop_last()) + T::encoding(items.last())
    }
}

/// Whether every element of a list is small enough to be written.
pub open spec fn all_fit<T: Codec>(items: Seq<T::V>) -> bool {
    forall|i: int| 0 <= i < items.len() ==> T::fits(#[trigger] items[i])
}

/// A parsed list with one more element in front.
pub open spec fn preceded<V>(first: V, rest: Option<(Seq<V>, int)>) -> Option<(Seq<V>, int)> {
    match rest {
        Some((items, end)) => Some((seq![first] + items, end)),
        None => None,
    }
}

/// The `n` values whose binary forms follow each other from position `at`
/// of `b`, and the position after them.
pub open spec fn parse_items<T: Codec>(b: Seq<u8>, at: int, n: nat) -> Option<(Seq<T::V>, int)>
    decreases n,
{
    if n == 0 {
        Some((Seq::empty(), at))
    } else {
        match T::parse(b, at) {
            Some((v, next)) => preceded(v, parse_items::<T>(b, next, (n - 1) as nat)),
            None => None,
        }
    }
}

/// A parsed list appended to the elements read before it.
pub open spec fn appended<V>(read: Seq<V>, rest: Option<(Seq<V>, int)>) -> Option<(Seq<V>, int)> {
    match rest {
        Some((items, end)) => Some((read + items, end)),
        None => None,
    }
}

proof fn lemma_encode_items_front<T: Codec>(items: Seq<T::V>)
    requires
        items.len() > 0,
    ensures
        encode_items::<T>(items) == T::encoding(items[0]) + encode_items::<T>(items.drop_first()),
    decreases items.len(),
{
    if items.len() == 1 {
        assert(items.drop_last() =~= Seq::<T::V>::empty());
        assert(items.drop_first() =~= Seq::<T::V>::empty());
        assert(encode_items::<T>(items) =~= T::encoding(items[0]) + encode_items::<T>(
            items.drop_first(),
        ));
    } else {
        let init = items.drop_last();
        lemma_encode_items_front::<T>(init);
        assert(init.drop_first() =~= items.drop_first().drop_last());
        assert(items.drop_first().last() == items.last());
        assert(encode_items::<T>(items) =~= T::encoding(items[0]) + encode_items::<T>(
            items.drop_first(),
        ));
    }
}

proof fn lemma_parse_items_encoding<T: Codec>(items: Seq<T::V>, pre: Seq<u8>, post: Seq<u8>)
    requires
        all_fit::<T>(items),
    ensures
        parse_items::<T>(pre + encode_items::<T>(items) + post, pre.len() as int, items.len())
            == Some((items, (pre.len() + encode_items::<T>(items).len()) as int)),
    decreases items.len(),
{
    let b = pre + encode_items::<T>(items) + post;
    if items.len() == 0 {
    } else {
        let first = items[0];
        let rest = items.drop_first();
        lemma_encode_items_front::<T>(items);
        T::lemma_parse_encoding(first, pre, encode_items::<T>(rest) + post);
        assert(pre + T::encoding(first) + (encode_items::<T>(rest) + post) =~= b);
        assert(all_fit::<T>(rest)) by {
            assert forall|i: int| 0 <= i < rest.len() implies T::fits(#[trigger] rest[i]) by {
                assert(rest[i] == items[i + 1]);
            }
        }
        lemma_parse_items_encoding::<T>(rest, pre + T::encoding(first), post);
        assert(pre + T::encoding(first) + encode_items::<T>(rest) + post =~= b);
        assert(seq![first] + rest =~= items);
    }
}

impl<T: Codec> Codec for Vec<T> {
    open spec fn fits(v: Seq<T::V>) -> bool {
        v.len() <= u64::MAX && all_fit::<T>(v)
    }

    open spec fn encoding(v: Seq<T::V>) -> Seq<u8> {
        spec_u64_to_le_bytes(v.len() as u64) + encode_items::<T>(v)
    }

    open spec fn parse(b: Seq<u8>, at: int) -> Option<(Seq<T::V>, int)> {
        match u64::parse(b, at) {
            Some((n, next)) => parse_items::<T>(b, next, n as nat),
            None => None,
        }
    }

    proof fn lemma_parse_encoding(v: Seq<T::V>, pre: Seq<u8>, post: Seq<u8>) {
        let head = spec_u64_to_le_bytes(v.len() as u64);
        let b = pre + Self::encoding(v) + post;
        u64::lemma_parse_encoding(v.len() as u64, pre, encode_items::<T>(v) + post);
        assert(pre + head + (encode_items::<T>(v) + post) =~= b);
        lemma_parse_items_encoding::<T>(v, pre + head, post);
        assert(pre + head + encode_items::<T>(v) + post =~= b);
    }

    fn write(&self, out: &mut Vec<u8>) {
        let ghost items = self.deep_view();
        let n = self.len() as u64;
        n.write(out);
        let ghost head = out@;
        let mut i: usize = 0;
        assert(items.take(0) =~= Seq::<T::V>::empty());
        assert(head + encode_items::<T>(items.take(0)) =~= head);
        while i < self.len()
            invariant
                i <= self.len(),
                items == self.deep_view(),
                out@ == head + encode_items::<T>(items.take(i as int)),
                all_fit::<T>(items.take(i as int)),
            decreases self.len() - i,
        {
            self[i].write(out);
            proof {
                let next = items.take(i + 1);
                assert(next.drop_last() =~= items.take(i as int));
                assert(next.last() == self[i as int].deep_view());
                assert(out@ =~= head + encode_items::<T>(next));
                assert forall|j: int| 0 <= j < next.len() implies T::fits(#[trigger] next[j]) by {
                    if j < i {
                        assert(next[j] == items.take(i as int)[j]);
                    }
                }
            }
            i += 1;
        }
        assert(items.take(self.len() as int) =~= items);
        assert(out@ =~= old(out)@ + Self::encoding(items));
    }

    fn read(b: &[u8], at: usize) -> (r: Option<(Self, usize)>) {
        let (n, start) = match u64::read(b, at) {
            Some(head) => head,
            None => {
                return None;
            },
        };
        let mut out: Vec<T> = Vec::new();
        let mut pos: usize = start;
        let mut i: u64 = 0;
        assert(out.deep_view() =~= Seq::<T::V>::empty());
        assert(appended(out.deep_view(), parse_items::<T>(b@, pos as int, n as nat))
            == parse_items::<T>(b@, start as int, n as nat)) by {
            match parse_items::<T>(b@, start as int, n as nat) {
                Some((items, end)) => {
                    assert(Seq::<T::V>::empty() + items =~= items);
                },
                None => {},
            }
        }
        while i < n
            invariant
                i <= n,
                at <= start <= pos <= b.len(),
                u64::parse(b@, at as int) == Some((n, start as int)),
                parse_items::<T>(b@, start as int, n as nat) == appended(
                    out.deep_view(),
                    parse_items::<T>(b@, pos as int, (n - i) as nat),
                ),
            decreases n - i,
        {
            match T::read(b, pos) {
                None => {
                    return None;
                },
                Some((value, next)) => {
                    let ghost before = out;
                    let ghost shown = value.deep_view();
                    out.push(value);
                    proof {
                        assert(out.deep_view() =~= before.deep_view().push(shown));
                        match parse_items::<T>(b@, next as int, (n - i - 1) as nat) {
                            Some((items, end)) => {
                                assert(before.deep_view() + (seq![shown] + items)
                                    =~= out.deep_view() + items);
                            },
                            None => {},
                        }
                    }
                    pos = next;
                },
            }
            i += 1;
        }
        assert(out.deep_view() + Seq::<T::V>::empty() =~= out.deep_view());
        Some((out, pos))
    }
}

/// Two values written one after the other are read back one after the
/// other.
proof fn lemma_parse_two<A: Codec, B: Codec>(a: A::V, b: B::V, pre: Seq<u8>, post: Seq<u8>)
    requires
        A::fits(a),
        B::fits(b),
    ensures
        ({
            let bytes = pre + (A::encoding(a) + B::encoding(b)) + post;
            let mid = (pre.len() + A::encoding(a).len()) as int;
            &&& A::parse(bytes, pre.len() as int) == Some((a, mid))
            &&& B::parse(bytes, mid) == Some((b, mid + B::encoding(b).len()))
        }),
{
    let bytes = pre + (A::encoding(a) + B::encoding(b)) + post;
    A::lemma_parse_encoding(a, pre, B::encoding(b) + post);
    assert(pre + A::encoding(a) + (B::encoding(b) + post) =~= bytes);
    B::lemma_parse_encoding(b, pre + A::encoding(a), post);
    assert(pre + A::encoding(a) + B::encoding(b) + post =~= bytes);
}

/// Three values written one after the other are read back one after the
/// other.
proof fn lemma_parse_three<A: Codec, B: Codec, C: Codec>(
    a: A::V,
    b: B::V,
    c: C::V,
    pre: Seq<u8>,
    post: Seq<u8>,
)
    requires
        A::fits(a),
        B::fits(b),
        C::fits(c),
    ensures
        ({
            let bytes = pre + (A::encoding(a) + B::encoding(b) + C::encoding(c)) + post;
            let mid = (pre.len() + A::encoding(a).len()) as int;
            let late = mid + B::encoding(b).len();
            &&& A::parse(bytes, pre.len() as int) == Some((a, mid))
            &&& B::parse(bytes, mid) == Some((b, late))
            &&& C::parse(bytes, late) == Some((c, late + C::encoding(c).len()))
        }),
{
    let bytes = pre + (A::encoding(a) + B::encoding(b) + C::encoding(c)) + post;
    lemma_parse_two::<A, B>(a, b, pre, C::encoding(c) + post);
    assert(pre + (A::encoding(a) + B::encoding(b)) + (C::encoding(c) + post) =~= bytes);
    C::lemma_parse_encoding(c, pre + A::encoding(a) + B::encoding(b), post);
    assert(pre + A::encoding(a) + B::encoding(b) + C::encoding(c) + post =~= bytes);
}

/// The texts of a package, in the order in which they are written.
pub open spec fn package_fields(p: PackageView) -> Seq<Seq<char>> {
    seq![
        p.pkg,
        p.pkg_name,
        p.description,
        p.note,
        p.version,
        p.download_url,
        p.size,
        p.bsum,
        p.build_date,
        p.src_url,
        p.homepage,
        p.build_script,
        p.build_log,
        p.category,
        p.provides,
        p.icon,
    ]
}

/// The package with the given texts and family.
pub open spec fn package_of(f: Seq<Seq<char>>, family: Option<Seq<char>>) -> PackageView {
    PackageView {
        pkg: f[0],
        pkg_name: f[1],
        description: f[2],
        note: f[3],
        version: f[4],
        download_url: f[5],
        size: f[6],
        bsum: f[7],
        build_date: f[8],
        src_url: f[9],
        homepage: f[10],
        build_script: f[11],
        build_log: f[12],
        category: f[13],
        provides: f[14],
        icon: f[15],
        family,
    }
}

fn take_last(fields: &mut Vec<String>) -> (r: String)
    requires
        old(fields).len() > 0,
    ensures
        final(fields)@ == old(fields)@.drop_last(),
        r == old(fields)@.last(),
{
    match fields.pop() {
        Some(text) => text,
        None => String::new(),
    }
}

impl Codec for Package {
    open spec fn fits(v: PackageView) -> bool {
        Vec::<String>::fits(package_fields(v)) && Option::<String>::fits(v.family)
    }

    open spec fn encoding(v: PackageView) -> Seq<u8> {
        Vec::<String>::encoding(package_fields(v)) + Option::<String>::encoding(v.family)
    }

    open spec fn parse(b: Seq<u8>, at: int) -> Option<(PackageView, int)> {
        match Vec::<String>::parse(b, at) {
            Some((fields, next)) => if fields.len() == 16 {
                match Option::<String>::parse(b, next) {
                    Some((family, end)) => Some((package_of(fields, family), end)),
                    None => None,
                }
            } else {
                None
            },
            None => None,
        }
    }

    proof fn lemma_parse_encoding(v: PackageView, pre: Seq<u8>, post: Seq<u8>) {
        lemma_parse_two::<Vec<String>, Option<String>>(package_fields(v), v.family, pre, post);
    }

    fn write(&self, out: &mut Vec<u8>) {
        let mut fields: Vec<String> = Vec::new();
        fields.push(self.pkg.clone());
        fields.push(self.pkg_name.clone());
        fields.push(self.description.clone());
        fields.push(self.note.clone());
        fields.push(self.version.clone());
        fields.push(self.download_url.clone());
        fields.push(self.size.clone());
        fields.push(self.bsum.clone());
        fields.push(self.build_date.clone());
        fields.push(self.src_url.clone());
        fields.push(self.homepage.clone());
        fields.push(self.build_script.clone());
        fields.push(self.build_log.clone());
        fields.push(self.category.clone());
        fields.push(self.provides.clone());
        fields.push(self.icon.clone());
        assert(fields.deep_view() =~= package_fields(self@));
        fields.write(out);
        self.family.write(out);
        assert(self.family.deep_view() == self@.family);
        assert(out@ =~= old(out)@ + Self::encoding(self.deep_view()));
    }

    fn read(b: &[u8], at: usize) -> (r: Option<(Self, usize)>) {
        let (mut fields, next) = match Vec::<String>::read(b, at) {
            Some(found) => found,
            None => {
                return None;
            },
        };
        if fields.len() != 16 {
            return None;
        }
        let (family, end) = match Option::<String>::read(b, next) {
            Some(found) => found,
            None => {
                return None;
            },
        };
        let ghost all = fields.deep_view();
        proof {
            crate::seqs::lemma_deep_view_index(fields);
        }
        let icon = take_last(&mut fields);
        let provides = take_last(&mut fields);
        let category = take_last(&mut fields);
        let build_log = take_last(&mut fields);
        let build_script = take_last(&mut fields);
        let homepage = take_last(&mut fields);
        let src_url = take_last(&mut fields);
        let build_date = take_last(&mut fields);
        let bsum = take_last(&mut fields);
        let size = take_last(&mut fields);
        let download_url = take_last(&mut fields);
        let version = take_last(&mut fields);
        let note = take_last(&mut fields);
        let description = take_last(&mut fields);
        let pkg_name = take_last(&mut fields);
        let pkg = take_last(&mut fields);
        let package = Package {
            pkg,
            pkg_name,
            description,
            note,
            version,
            download_url,
            size,
            bsum,
            build_date,
            src_url,
            homepage,
            build_script,
            build_log,
            category,
            provides,
            icon,
            family,
        };
        assert(package@ == package_of(all, family.deep_view()));
        Some((package, end))
    }
}

impl Codec for PackageGroup {
    open spec fn fits(v: PackageGroupView) -> bool {
        String::fits(v.name) && Vec::<Package>::fits(v.packages)
    }

    open spec fn encoding(v: PackageGroupView) -> Seq<u8> {
        String::encoding(v.name) + Vec::<Package>::encoding(v.packages)
    }

    open spec fn parse(b: Seq<u8>, at: int) -> Option<(PackageGroupView, int)> {
        match String::parse(b, at) {
            Some((name, next)) => match Vec::<Package>::parse(b, next) {
                Some((packages, end)) => Some((PackageGroupView { name, packages }, end)),
                None => None,
            },
            None => None,
        }
    }

    proof fn lemma_parse_encoding(v: PackageGroupView, pre: Seq<u8>, post: Seq<u8>) {
        lemma_parse_two::<String, Vec<Package>>(v.name, v.packages, pre, post);
    }

    fn write(&self, out: &mut Vec<u8>) {
        self.name.write(out);
        self.packages.write(out);
        assert(out@ =~= old(out)@ + Self::encoding(self.deep_view()));
    }

    fn read(b: &[u8], at: usize) -> (r: Option<(Self, usize)>) {
        let (name, next) = match String::read(b, at) {
            Some(found) => found,
            None => {
                return None;
            },
        };
        match Vec::<Package>::read(b, next) {
            Some((packages, end)) => Some((PackageGroup { name, packages }, end)),
            None => None,
        }
    }
}

impl Codec for CollectionPackages {
    open spec fn fits(v: CollectionView) -> bool {
        String::fits(v.name) && Vec::<PackageGroup>::fits(v.groups)
    }

    open spec fn encoding(v: CollectionView) -> Seq<u8> {
        String::encoding(v.name) + Vec::<PackageGroup>::encoding(v.groups)
    }

    open spec fn parse(b: Seq<u8>, at: int) -> Option<(CollectionView, int)> {
        match String::parse(b, at) {
            Some((name, next)) => match Vec::<PackageGroup>::parse(b, next) {
                Some((groups, end)) => Some((CollectionView { name, groups }, end)),
                None => None,
            },
            None => None,
        }
    }

    proof fn lemma_parse_encoding(v: CollectionView, pre: Seq<u8>, post: Seq<u8>) {
        lemma_parse_two::<String, Vec<PackageGroup>>(v.name, v.groups, pre, post);
    }

    fn write(&self, out: &mut Vec<u8>) {
        self.name.write(out);
        self.groups.write(out);
        assert(out@ =~= old(out)@ + Self::encoding(self.deep_view()));
    }

    fn read(b: &[u8], at: usize) -> (r: Option<(Self, usize)>) {
        let (name, next) = match String::read(b, at) {
            Some(found) => found,
            None => {
                return None;
            },
        };
        match Vec::<PackageGroup>::read(b, next) {
            Some((groups, end)) => Some((CollectionPackages { name, groups }, end)),
            None => None,
        }
    }
}

/// The texts of a record, in the order in which they are written.
pub open spec fn record_fields(r: InstalledPackageView) -> Seq<Seq<char>> {
    seq![r.repo_name, r.collection, r.name, r.bin_name, r.version, r.checksum]
}

/// The record with the given texts, size and time.
pub open spec fn record_of(f: Seq<Seq<char>>, size: u64, timestamp: i64) -> InstalledPackageView {
    InstalledPackageView {
        repo_name: f[0],
        collection: f[1],
        name: f[2],
        bin_name: f[3],
        version: f[4],
        checksum: f[5],
        size,
        timestamp,
    }
}

impl Codec for InstalledPackage {
    open spec fn fits(v: InstalledPackageView) -> bool {
        Vec::<String>::fits(record_fields(v))
    }

    open spec fn encoding(v: InstalledPackageView) -> Seq<u8> {
        Vec::<String>::encoding(record_fields(v)) + u64::encoding(v.size) + i64::encoding(
            v.timestamp,
        )
    }

    open spec fn parse(b: Seq<u8>, at: int) -> Option<(InstalledPackageView, int)> {
        match Vec::<String>::parse(b, at) {
            Some((fields, next)) => if fields.len() == 6 {
                match u64::parse(b, next) {
                    Some((size, late)) => match i64::parse(b, late) {
                        Some((timestamp, end)) => Some((record_of(fields, size, timestamp), end)),
                        None => None,
                    },
                    None => None,
                }
            } else {
                None
            },
            None => None,
        }
    }

    proof fn lemma_parse_encoding(v: InstalledPackageView, pre: Seq<u8>, post: Seq<u8>) {
        lemma_parse_three::<Vec<String>, u64, i64>(
            record_fields(v),
            v.size,
            v.timestamp,
            pre,
            post,
        );
    }

    fn write(&self, out: &mut Vec<u8>) {
        let mut fields: Vec<String> = Vec::new();
        fields.push(self.repo_name.clone());
        fields.push(self.collection.clone());
        fields.push(self.name.clone());
        fields.push(self.bin_name.clone());
        fields.push(self.version.clone());
        fields.push(self.checksum.clone());
        assert(fields.deep_view() =~= record_fields(self@));
        fields.write(out);
        self.size.write(out);
        self.timestamp.write(out);
        assert(out@ =~= old(out)@ + Self::encoding(self.deep_view()));
    }

    fn read(b: &[u8], at: usize) -> (r: Option<(Self, usize)>) {
        let (mut fields, next) = match Vec::<String>::read(b, at) {
            Some(found) => found,
            None => {
                return None;
            },
        };
        if fields.len() != 6 {
            return None;
        }
        let (size, late) = match u64::read(b, next) {
            Some(found) => found,
            None => {
                return None;
            },
        };
        let (timestamp, end) = match i64::read(b, late) {
            Some(found) => found,
            None => {
                return None;
            },
        };
        let ghost all = fields.deep_view();
        proof {
            crate::seqs::lemma_deep_view_index(fields);
        }
        let checksum = take_last(&mut fields);
        let version = take_last(&mut fields);
        let bin_name = take_last(&mut fields);
        let name = take_last(&mut fields);
        let collection = take_last(&mut fields);
        let repo_name = take_last(&mut fields);
        let record = InstalledPackage {
            repo_name,
            collection,
            name,
            bin_name,
            version,
            checksum,
            size,
            timestamp,
        };
        assert(record@ == record_of(all, size, timestamp));
        Some((record, end))
    }
}

/// The bytes that a stored catalog begins with.
pub open spec fn catalog_magic() -> Seq<u8> {
    seq![0x53u8, 0x52u8, 0x43u8, 0x31u8]
}

/// The bytes that a stored record of installations begins with.
pub open spec fn installed_magic() -> Seq<u8> {
    seq![0x53u8, 0x52u8, 0x49u8, 0x31u8]
}

/// A catalog as it is stored.
pub open spec fn encoded_catalog(catalog: Seq<CollectionView>) -> Seq<u8> {
    catalog_magic() + Vec::<CollectionPackages>::encoding(catalog)
}

/// The catalog that stored bytes hold, if they hold one and nothing else.
pub open spec fn decoded_catalog(bytes: Seq<u8>) -> Option<Seq<CollectionView>> {
    if bytes.len() >= 4 && bytes.take(4) == catalog_magic() {
        match Vec::<CollectionPackages>::parse(bytes, 4) {
            Some((catalog, end)) => if end == bytes.len() {
                Some(catalog)
            } else {
                None
            },
            None => None,
        }
    } else {
        None
    }
}

/// A record of installations as it is stored.
pub open spec fn encoded_installed(records: Seq<InstalledPackageView>) -> Seq<u8> {
    installed_magic() + Vec::<InstalledPackage>::encoding(records)
}

/// The record of installations that stored bytes hold, if they hold one
/// and nothing else.
pub open spec fn decoded_installed(bytes: Seq<u8>) -> Option<Seq<InstalledPackageView>> {
    if bytes.len() >= 4 && bytes.take(4) == installed_magic() {
        match Vec::<InstalledPackage>::parse(bytes, 4) {
            Some((records, end)) => if end == bytes.len() {
                Some(records)
            } else {
                None
            },
            None => None,
        }
    } else {
        None
    }
}

fn has_magic(bytes: &[u8], first: u8, second: u8, third: u8, fourth: u8) -> (r: bool)
    ensures
        r == (bytes@.len() >= 4 && bytes@.take(4) == seq![first, second, third, fourth]),
{
    if bytes.len() < 4 {
        return false;
    }
    let r = bytes[0] == first && bytes[1] == second && bytes[2] == third && bytes[3] == fourth;
    proof {
        let head = bytes@.take(4);
        if r {
            assert(head =~= seq![first, second, third, fourth]);
        } else {
            assert(head[0] == bytes@[0] && head[1] == bytes@[1] && head[2] == bytes@[2] && head[3]
                == bytes@[3]);
        }
    }
    r
}

/// Writes a catalog in its stored form.
pub fn encode_catalog(catalog: &RepositoryPackages) -> (r: Vec<u8>)
    ensures
        r@ == encoded_catalog(catalog@),
        decoded_catalog(r@) == Some(catalog@),
{
    let mut out: Vec<u8> = Vec::new();
    out.push(0x53u8);
    out.push(0x52u8);
    out.push(0x43u8);
    out.push(0x31u8);
    assert(out@ =~= catalog_magic());
    catalog.collection.write(&mut out);
    proof {
        lemma_catalog_round_trip(catalog@);
    }
    out
}

/// Reads a stored catalog. Bytes that are not exactly a stored catalog give
/// nothing.
pub fn decode_catalog(bytes: &[u8]) -> (r: Option<RepositoryPackages>)
    ensures
        match r {
            Some(catalog) => decoded_catalog(bytes@) == Some(catalog@),
            None => decoded_catalog(bytes@) is None,
        },
{
    if !has_magic(bytes, 0x53u8, 0x52u8, 0x43u8, 0x31u8) {
        return None;
    }
    match Vec::<CollectionPackages>::read(bytes, 4) {
        Some((collection, end)) => if end == bytes.len() {
            Some(RepositoryPackages { collection })
        } else {
            None
        },
        None => None,
    }
}

/// Writes the record of installations in its stored form.
pub fn encode_installed(installed: &InstalledPackages) -> (r: Vec<u8>)
    ensures
        r@ == encoded_installed(installed@),
        decoded_installed(r@) == Some(installed@),
{
    let mut out: Vec<u8> = Vec::new();
    out.push(0x53u8);
    out.push(0x52u8);
    out.push(0x49u8);
    out.push(0x31u8);
    assert(out@ =~= installed_magic());
    installed.packages.write(&mut out);
    proof {
        lemma_installed_round_trip(installed@);
    }
    out
}

/// Reads a stored record of installations. Bytes that are not exactly a
/// stored record give nothing.
pub fn decode_installed(bytes: &[u8]) -> (r: Option<InstalledPackages>)
    ensures
        match r {
            Some(installed) => decoded_installed(bytes@) == Some(installed@),
            None => decoded_installed(bytes@) is None,
        },
{
    if !has_magic(bytes, 0x53u8, 0x52u8, 0x49u8, 0x31u8) {
        return None;
    }
    match Vec::<InstalledPackage>::read(bytes, 4) {
        Some((packages, end)) => if end == bytes.len() {
            Some(InstalledPackages { packages })
        } else {
            None
        },
        None => None,
    }
}

/// A stored catalog is read back unchanged: every collection, every name,
/// every variant and every field of it.
pub proof fn lemma_catalog_round_trip(catalog: Seq<CollectionView>)
    requires
        Vec::<CollectionPackages>::fits(catalog),
    ensures
        decoded_catalog(encoded_catalog(catalog)) == Some(catalog),
{
    let bytes = encoded_catalog(catalog);
    Vec::<CollectionPackages>::lemma_parse_encoding(catalog, catalog_magic(), Seq::empty());
    assert(catalog_magic() + Vec::<CollectionPackages>::encoding(catalog) + Seq::<u8>::empty()
        =~= bytes);
    assert(bytes.take(4) =~= catalog_magic());
}

/// A stored record of installations is read back unchanged, the time of
/// each installation to the second.
pub proof fn lemma_installed_round_trip(records: Seq<InstalledPackageView>)
    requires
        Vec::<InstalledPackage>::fits(records),
    ensures
        decoded_installed(encoded_installed(records)) == Some(records),
{
    let bytes = encoded_installed(records);
    Vec::<InstalledPackage>::lemma_parse_encoding(records, installed_magic(), Seq::empty());
    assert(installed_magic() + Vec::<InstalledPackage>::encoding(records) + Seq::<u8>::empty()
        =~= bytes);
    assert(bytes.take(4) =~= installed_magic());
}

} // verus!
