//! Holes in rendered output: offsets reserved during the walk, spliced with
//! their fills in one pass afterwards.
//!
//! Offsets are character positions in the walk's output, reserved in
//! document order; two holes may share an offset and are then filled in the
//! order they were reserved.

use vstd::prelude::*;
use crate::directive::fills::{GlobalFills, GlobalKey, Namespace};
use crate::text::{chars_of, push_range, push_str};
use crate::backend::RenderBackend;

verus! {

/// `source` with the `k` first holes filled: each stretch of source up to the
/// next hole's offset, then that hole's text.
pub open spec fn spliced(source: Seq<char>, offsets: Seq<nat>, texts: Seq<Seq<char>>, k: int) -> Seq<char>
    decreases k,
{
    if k <= 0 {
        Seq::empty()
    } else {
        let prev: int = if k == 1 {
            0
        } else {
            offsets[k - 2] as int
        };
        spliced(source, offsets, texts, k - 1) + source.subrange(prev, offsets[k - 1] as int) + texts[k
            - 1]
    }
}

/// `source` with every hole filled by `texts`, in order.
pub open spec fn assembled(source: Seq<char>, offsets: Seq<nat>, texts: Seq<Seq<char>>) -> Seq<char> {
    let n = offsets.len() as int;
    let last: int = if n == 0 {
        0
    } else {
        offsets[n - 1] as int
    };
    spliced(source, offsets, texts, n) + source.subrange(last, source.len() as int)
}

/// Offsets in document order, none past the end of `source`.
pub open spec fn offsets_fit(offsets: Seq<nat>, len: nat) -> bool {
    &&& forall|i: int, j: int| 0 <= i <= j < offsets.len() ==> offsets[i] <= offsets[j]
    &&& forall|i: int| 0 <= i < offsets.len() ==> #[trigger] offsets[i] <= len
}

/// Holes reserved during a walk, in document order.
pub struct Holes<N> {
    entries: Vec<(usize, GlobalKey<N>)>,
}

impl<N> Holes<N> {
    /// The reserved offsets, in reservation order.
    pub closed spec fn offsets(&self) -> Seq<nat> {
        self.entries@.map_values(|e: (usize, GlobalKey<N>)| e.0 as nat)
    }

    /// The reserved keys, in reservation order.
    pub closed spec fn keys(&self) -> Seq<(N, u32)> {
        self.entries@.map_values(|e: (usize, GlobalKey<N>)| (e.1.0, e.1.1))
    }

    /// No holes.
    pub fn new() -> (r: Self)
        ensures
            r.offsets() == Seq::<nat>::empty(),
            r.keys() == Seq::<(N, u32)>::empty(),
    {
        let r = Holes { entries: Vec::new() };
        assert(r.offsets() =~= Seq::<nat>::empty());
        assert(r.keys() =~= Seq::<(N, u32)>::empty());
        r
    }

    /// Reserve a hole at `offset` for `key`. Holes are reserved in document
    /// order: `offset` is not before the last reserved one.
    pub fn reserve(&mut self, offset: usize, key: GlobalKey<N>)
        requires
            old(self).offsets().len() > 0 ==> old(self).offsets().last() <= offset,
        ensures
            final(self).offsets() == old(self).offsets().push(offset as nat),
            final(self).keys() == old(self).keys().push((key.0, key.1)),
    {
        self.entries.push((offset, key));
        assert(self.offsets() =~= old(self).offsets().push(offset as nat));
        assert(self.keys() =~= old(self).keys().push((key.0, key.1)));
    }
}

impl<N: Namespace> Holes<N> {
    /// Splice each hole's fill into `source` at its offset, in reservation
    /// order; the text between holes is copied unchanged. Each fill is
    /// handed to `write_fill`, and what it writes into a fresh string is what
    /// lands at the hole; a hole nobody filled gets nothing.
    pub fn assemble<F: Fn(&str, &mut String)>(self, source: String, fills: &GlobalFills<N>, write_fill: F) -> (r:
        String)
        requires
            offsets_fit(self.offsets(), source@.len()),
            fills.wf(),
            forall|a: &str, o: &mut String| #[trigger] write_fill.requires((a, o)),
        ensures
            exists|texts: Seq<Seq<char>>|
                texts.len() == self.offsets().len() && r@ == assembled(source@, self.offsets(), texts) && (
                forall|i: int|
                    0 <= i < texts.len() && !fills@.contains_key(self.keys()[i]) ==> #[trigger] texts[i]
                        == Seq::<char>::empty()),
    {
        let ghost offs = self.offsets();
        let src = chars_of(source.as_str());
        if self.entries.len() == 0 {
            assert(source@.subrange(0, source@.len() as int) =~= source@);
            assert(source@ == assembled(source@, offs, Seq::<Seq<char>>::empty()));
            return source;
        }
        let mut out = String::new();
        let mut pos: usize = 0;
        let mut k: usize = 0;
        let ghost mut texts: Seq<Seq<char>> = Seq::empty();
        while k < self.entries.len()
            invariant
                k <= self.entries@.len(),
                offs == self.offsets(),
                src@ == source@,
                offsets_fit(offs, source@.len()),
                texts.len() == k,
                pos == (if k == 0 {
                    0
                } else {
                    offs[k - 1] as int
                }),
                out@ == spliced(source@, offs, texts, k as int),
                forall|i: int|
                    0 <= i < k && !fills@.contains_key(self.keys()[i]) ==> #[trigger] texts[i]
                        == Seq::<char>::empty(),
                fills.wf(),
                forall|a: &str, o: &mut String| #[trigger] write_fill.requires((a, o)),
            decreases self.entries.len() - k,
        {
            let offset = self.entries[k].0;
            let key = self.entries[k].1;
            assert(offs[k as int] == offset);
            if k > 0 {
                assert(offs[k - 1] <= offs[k as int]);
            }
            assert(offs[k as int] <= source@.len());
            push_range(&mut out, src.as_slice(), pos, offset);
            let mut piece = String::new();
            assert(self.keys()[k as int] == (key.0, key.1));
            match fills.get(key) {
                Some(fill) => {
                    write_fill(fill, &mut piece);
                },
                None => {},
            }
            push_str(&mut out, piece.as_str());
            proof {
                let t2 = texts.push(piece@);
                assert(spliced(source@, offs, t2, k as int) == spliced(source@, offs, texts, k as int)) by {
                    lemma_spliced_prefix(source@, offs, texts, t2, k as int);
                }
                texts = t2;
            }
            pos = offset;
            k = k + 1;
        }
        push_range(&mut out, src.as_slice(), pos, src.len());
        assert(out@ == assembled(source@, offs, texts));
        assert(texts.len() == self.offsets().len());
        out
    }

    /// Splice each hole's fill into `source` as `assemble` does, each fill
    /// written as raw HTML through backend `B`: what lands at a hole is
    /// exactly the backend's text for its fill, and nothing for a hole
    /// nobody filled.
    pub fn assemble_through<B: RenderBackend>(self, source: String, fills: &GlobalFills<N>) -> (r: String)
        requires
            offsets_fit(self.offsets(), source@.len()),
            fills.wf(),
        ensures
            exists|texts: Seq<Seq<char>>|
                texts.len() == self.offsets().len() && r@ == assembled(source@, self.offsets(), texts) && (
                forall|i: int| 0 <= i < texts.len() ==> #[trigger] texts[i] == fill_text::<N, B>(fills@, self.keys()[i])),
    {
        let ghost offs = self.offsets();
        let src = chars_of(source.as_str());
        if self.entries.len() == 0 {
            assert(source@.subrange(0, source@.len() as int) =~= source@);
            assert(source@ == assembled(source@, offs, Seq::<Seq<char>>::empty()));
            return source;
        }
        let mut out = String::new();
        let mut pos: usize = 0;
        let mut k: usize = 0;
        let ghost mut texts: Seq<Seq<char>> = Seq::empty();
        while k < self.entries.len()
            invariant
                k <= self.entries@.len(),
                offs == self.offsets(),
                src@ == source@,
                offsets_fit(offs, source@.len()),
                texts.len() == k,
                pos == (if k == 0 {
                    0
                } else {
                    offs[k - 1] as int
                }),
                out@ == spliced(source@, offs, texts, k as int),
                forall|i: int| 0 <= i < k ==> #[trigger] texts[i] == fill_text::<N, B>(fills@, self.keys()[i]),
                fills.wf(),
                decreases self.entries.len() - k,
        {
            let offset = self.entries[k].0;
            let key = self.entries[k].1;
            assert(offs[k as int] == offset);
            if k > 0 {
                assert(offs[k - 1] <= offs[k as int]);
            }
            assert(offs[k as int] <= source@.len());
            push_range(&mut out, src.as_slice(), pos, offset);
            let mut piece = String::new();
            assert(self.keys()[k as int] == (key.0, key.1));
            match fills.get(key) {
                Some(fill) => {
                    B::raw_html(fill, &mut piece);
                },
                None => {},
            }
            push_str(&mut out, piece.as_str());
            proof {
                let t2 = texts.push(piece@);
                assert(spliced(source@, offs, t2, k as int) == spliced(source@, offs, texts, k as int)) by {
                    lemma_spliced_prefix(source@, offs, texts, t2, k as int);
                }
                texts = t2;
            }
            pos = offset;
            k = k + 1;
        }
        push_range(&mut out, src.as_slice(), pos, src.len());
        assert(out@ == assembled(source@, offs, texts));
        assert(texts.len() == self.offsets().len());
        out
    }
}

/// What lands at the hole keyed `key` when fills are written as raw HTML
/// through backend `B`.
pub open spec fn fill_text<N, B: RenderBackend>(fills: Map<(N, u32), Seq<char>>, key: (N, u32)) -> Seq<char> {
    if fills.contains_key(key) {
        B::raw_html_text(fills[key])
    } else {
        Seq::empty()
    }
}

/// Splicing the first `k` holes reads only the first `k` texts.
proof fn lemma_spliced_prefix(source: Seq<char>, offsets: Seq<nat>, a: Seq<Seq<char>>, b: Seq<Seq<char>>, k: int)
    requires
        0 <= k <= a.len(),
        k <= b.len(),
        forall|i: int| 0 <= i < k ==> a[i] == b[i],
    ensures
        spliced(source, offsets, a, k) == spliced(source, offsets, b, k),
    decreases k,
{
    if k > 0 {
        lemma_spliced_prefix(source, offsets, a, b, k - 1);
    }
}


impl<N> Default for Holes<N> {
    fn default() -> (r: Self)
        ensures
            r.offsets() == Seq::<nat>::empty(),
            r.keys() == Seq::<(N, u32)>::empty(),
    {
        Holes::new()
    }
}

} // verus!
