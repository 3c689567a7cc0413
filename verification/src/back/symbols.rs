//! The set of tracked stocks, in the order in which they were admitted, and
//! the resolution that each stock's bars are asked at.

use crate::back::stock::{check_code_chars, is_stock_code, KLineScale};
use crate::text::{pieces, split, split_chars, texts, to_chars, to_string};
use vstd::prelude::*;

verus! {

/// The tracked stocks and the resolutions.
pub struct SymbolSet {
    codes: Vec<String>,
    scales: Vec<(String, KLineScale)>,
}

/// What a [`SymbolSet`] holds: the tracked codes in the order of their
/// admission, and the resolution of every code that was given one.
pub struct SymbolSetView {
    pub codes: Seq<Seq<char>>,
    pub scales: Map<Seq<char>, KLineScale>,
}

/// The map that a list of entries writes, a later entry before an earlier.
pub open spec fn scale_map(entries: Seq<(Seq<char>, KLineScale)>) -> Map<Seq<char>, KLineScale>
    decreases entries.len(),
{
    if entries.len() == 0 {
        Map::empty()
    } else {
        scale_map(entries.drop_last()).insert(entries.last().0, entries.last().1)
    }
}

/// `codes` without `code`, the others in their order.
pub open spec fn without(codes: Seq<Seq<char>>, code: Seq<char>) -> Seq<Seq<char>>
    decreases codes.len(),
{
    if codes.len() == 0 {
        Seq::empty()
    } else if codes.last() == code {
        without(codes.drop_last(), code)
    } else {
        without(codes.drop_last(), code).push(codes.last())
    }
}

/// `codes` with `code` behind them, where it is a stock code and not among
/// them; else `codes`.
pub open spec fn admitted(codes: Seq<Seq<char>>, code: Seq<char>) -> Seq<Seq<char>> {
    if is_stock_code(code) && !codes.contains(code) {
        codes.push(code)
    } else {
        codes
    }
}

/// The codes that are admitted when `entries` are offered one after the
/// other to an empty set.
pub open spec fn admitted_all(entries: Seq<Seq<char>>) -> Seq<Seq<char>>
    decreases entries.len(),
{
    if entries.len() == 0 {
        Seq::empty()
    } else {
        admitted(admitted_all(entries.drop_last()), entries.last())
    }
}

/// The codes that a seed holds: its entries between commas, without those
/// that are no stock code and without repetitions.
pub open spec fn seed_codes(seed: Seq<char>) -> Seq<Seq<char>> {
    admitted_all(split(seed, ','))
}

/// A set's codes: stock codes all, and none twice.
pub open spec fn valid_codes(codes: Seq<Seq<char>>) -> bool {
    &&& codes.no_duplicates()
    &&& forall|i: int| 0 <= i < codes.len() ==> is_stock_code(#[trigger] codes[i])
}

impl SymbolSetView {
    /// The set's invariant.
    pub open spec fn wf(self) -> bool {
        valid_codes(self.codes)
    }

    /// The resolution of `code`'s bars: the one it was given, else fifteen
    /// minutes.
    pub open spec fn scale_of(self, code: Seq<char>) -> KLineScale {
        if self.scales.dom().contains(code) {
            self.scales[code]
        } else {
            KLineScale::Munute15
        }
    }
}

impl View for SymbolSet {
    type V = SymbolSetView;

    closed spec fn view(&self) -> SymbolSetView {
        SymbolSetView {
            codes: texts(self.codes@),
            scales: scale_map(self.scales.deep_view()),
        }
    }
}

/// Admitting keeps a set's codes valid.
pub proof fn lemma_admitted_valid(codes: Seq<Seq<char>>, code: Seq<char>)
    requires
        valid_codes(codes),
    ensures
        valid_codes(admitted(codes, code)),
{
    if is_stock_code(code) && !codes.contains(code) {
        let next = codes.push(code);
        assert forall|i: int, j: int| 0 <= i < next.len() && 0 <= j < next.len() && i != j implies next[i]
            != next[j] by {
            if i < codes.len() && j < codes.len() {
            } else if i < codes.len() {
                assert(codes.contains(codes[i]));
            } else {
                assert(codes.contains(codes[j]));
            }
        }
    }
}

/// The codes of a seed are valid.
pub proof fn lemma_admitted_all_valid(entries: Seq<Seq<char>>)
    ensures
        valid_codes(admitted_all(entries)),
    decreases entries.len(),
{
    if entries.len() > 0 {
        lemma_admitted_all_valid(entries.drop_last());
        lemma_admitted_valid(admitted_all(entries.drop_last()), entries.last());
    }
}

/// What is left without `code` was there before, `code` is not left, and
/// what else was there is left.
pub proof fn lemma_without(codes: Seq<Seq<char>>, code: Seq<char>)
    ensures
        !without(codes, code).contains(code),
        without(codes, code).len() <= codes.len(),
        forall|c: Seq<char>| #[trigger]
            without(codes, code).contains(c) <==> codes.contains(c) && c != code,
        !codes.contains(code) ==> without(codes, code) == codes,
    decreases codes.len(),
{
    if codes.len() > 0 {
        let init = codes.drop_last();
        let last = codes.last();
        lemma_without(init, code);
        let rest = without(init, code);
        let out = without(codes, code);
        assert forall|c: Seq<char>| #[trigger] out.contains(c) <==> codes.contains(c) && c != code by {
            if out.contains(c) {
                let i = choose|i: int| 0 <= i < out.len() && out[i] == c;
                if last != code && i == out.len() - 1 {
                    assert(codes[codes.len() - 1] == c);
                } else {
                    assert(rest[i] == c);
                    assert(rest.contains(c));
                    let j = choose|j: int| 0 <= j < init.len() && init[j] == c;
                    assert(codes[j] == c);
                }
            }
            if codes.contains(c) && c != code {
                let j = choose|j: int| 0 <= j < codes.len() && codes[j] == c;
                if j == codes.len() - 1 {
                    assert(out[out.len() - 1] == c);
                } else {
                    assert(init[j] == c);
                    assert(init.contains(c));
                    assert(rest.contains(c));
                    let i = choose|i: int| 0 <= i < rest.len() && rest[i] == c;
                    assert(out[i] == c);
                }
            }
        }
        if !codes.contains(code) {
            assert(!init.contains(code)) by {
                if init.contains(code) {
                    let j = choose|j: int| 0 <= j < init.len() && init[j] == code;
                    assert(codes[j] == code);
                }
            }
            assert(last != code) by {
                assert(codes[codes.len() - 1] == last);
            }
            assert(out =~= codes);
        }
    } else {
        assert(without(codes, code) =~= codes);
    }
}

/// Taking a code away keeps a set's codes valid.
pub proof fn lemma_without_valid(codes: Seq<Seq<char>>, code: Seq<char>)
    requires
        valid_codes(codes),
    ensures
        valid_codes(without(codes, code)),
    decreases codes.len(),
{
    if codes.len() > 0 {
        let init = codes.drop_last();
        let last = codes.last();
        assert(valid_codes(init)) by {
            assert forall|i: int| 0 <= i < init.len() implies is_stock_code(#[trigger] init[i]) by {
                assert(init[i] == codes[i]);
            }
        }
        lemma_without_valid(init, code);
        lemma_without(init, code);
        if last != code {
            let rest = without(init, code);
            let out = rest.push(last);
            assert(!rest.contains(last)) by {
                if rest.contains(last) {
                    assert(init.contains(last));
                    let j = choose|j: int| 0 <= j < init.len() && init[j] == last;
                    assert(codes[j] == codes[codes.len() - 1]);
                }
            }
            assert forall|i: int, j: int| 0 <= i < out.len() && 0 <= j < out.len() && i != j implies out[i]
                != out[j] by {
                if i < rest.len() && j < rest.len() {
                } else if i < rest.len() {
                    assert(rest.contains(rest[i]));
                } else {
                    assert(rest.contains(rest[j]));
                }
            }
            assert forall|i: int| 0 <= i < out.len() implies is_stock_code(#[trigger] out[i]) by {
                if i == out.len() - 1 {
                    assert(codes[codes.len() - 1] == last);
                }
            }
        }
    }
}

/// An entry that no later entry shares its code with is what the map holds
/// for that code.
proof fn lemma_scale_map_found(entries: Seq<(Seq<char>, KLineScale)>, i: int)
    requires
        0 <= i < entries.len(),
        forall|j: int| i < j < entries.len() ==> (#[trigger] entries[j]).0 != entries[i].0,
    ensures
        scale_map(entries).dom().contains(entries[i].0),
        scale_map(entries)[entries[i].0] == entries[i].1,
    decreases entries.len(),
{
    if i < entries.len() - 1 {
        let init = entries.drop_last();
        assert forall|j: int| i < j < init.len() implies (#[trigger] init[j]).0 != init[i].0 by {
            assert(init[j] == entries[j]);
        }
        lemma_scale_map_found(init, i);
        assert(entries.last() == entries[entries.len() - 1]);
    }
}

/// A code that no entry has is none of the map's.
proof fn lemma_scale_map_missing(entries: Seq<(Seq<char>, KLineScale)>, code: Seq<char>)
    requires
        forall|j: int| 0 <= j < entries.len() ==> (#[trigger] entries[j]).0 != code,
    ensures
        !scale_map(entries).dom().contains(code),
    decreases entries.len(),
{
    if entries.len() > 0 {
        let init = entries.drop_last();
        assert forall|j: int| 0 <= j < init.len() implies (#[trigger] init[j]).0 != code by {
            assert(init[j] == entries[j]);
        }
        lemma_scale_map_missing(init, code);
        assert(entries.last() == entries[entries.len() - 1]);
    }
}

/// Writing over the last entry of a code is inserting at that code.
proof fn lemma_scale_map_update(
    entries: Seq<(Seq<char>, KLineScale)>,
    i: int,
    scale: KLineScale,
)
    requires
        0 <= i < entries.len(),
        forall|j: int| i < j < entries.len() ==> (#[trigger] entries[j]).0 != entries[i].0,
    ensures
        scale_map(entries.update(i, (entries[i].0, scale))) == scale_map(entries).insert(
            entries[i].0,
            scale,
        ),
    decreases entries.len(),
{
    let code = entries[i].0;
    let next = entries.update(i, (code, scale));
    if i == entries.len() - 1 {
        assert(next.drop_last() =~= entries.drop_last());
        assert(scale_map(next) =~= scale_map(entries).insert(code, scale));
    } else {
        let init = entries.drop_last();
        assert forall|j: int| i < j < init.len() implies (#[trigger] init[j]).0 != init[i].0 by {
            assert(init[j] == entries[j]);
        }
        lemma_scale_map_update(init, i, scale);
        assert(next.drop_last() =~= init.update(i, (code, scale)));
        assert(next.last() == entries.last());
        assert(entries.last() == entries[entries.len() - 1]);
        assert(scale_map(next) =~= scale_map(entries).insert(code, scale));
    }
}

/// Whether two strings hold the same text.
pub(crate) fn same_text(a: &str, b: &str) -> (r: bool)
    ensures
        r == (a@ == b@),
{
    let x = to_chars(a);
    let y = to_chars(b);
    if x.len() != y.len() {
        return false;
    }
    let mut i: usize = 0;
    while i < x.len()
        invariant
            i <= x.len(),
            x.len() == y.len(),
            x@ == a@,
            y@ == b@,
            forall|j: int| 0 <= j < i ==> x@[j] == y@[j],
        decreases x.len() - i,
    {
        if x[i] != y[i] {
            proof {
                assert(a@[i as int] != b@[i as int]);
            }
            return false;
        }
        i += 1;
    }
    proof {
        assert(x@ =~= y@);
    }
    true
}

impl SymbolSet {
    /// The set's invariant: its codes are stock codes, and none is there
    /// twice.
    pub open spec fn wf(&self) -> bool {
        self@.wf()
    }

    /// A set without stocks and without resolutions.
    pub fn new() -> (s: SymbolSet)
        ensures
            s.wf(),
            s@.codes == Seq::<Seq<char>>::empty(),
            s@.scales == Map::<Seq<char>, KLineScale>::empty(),
    {
        let s = SymbolSet { codes: Vec::new(), scales: Vec::new() };
        proof {
            assert(texts(s.codes@) =~= Seq::<Seq<char>>::empty());
            assert(s.scales.deep_view() =~= Seq::<(Seq<char>, KLineScale)>::empty());
        }
        s
    }

    /// The set of the stock codes among the seed's entries, which commas
    /// separate.
    pub fn from_seed(seed: &str) -> (s: SymbolSet)
        ensures
            s.wf(),
            s@.codes == seed_codes(seed@),
            s@.scales == Map::<Seq<char>, KLineScale>::empty(),
    {
        let chars = to_chars(seed);
        let entries = split_chars(chars.as_slice(), ',');
        let mut s = SymbolSet::new();
        let mut i: usize = 0;
        proof {
            assert(pieces(entries@).take(0) =~= Seq::<Seq<char>>::empty());
        }
        while i < entries.len()
            invariant
                i <= entries.len(),
                s.wf(),
                s@.codes == admitted_all(pieces(entries@).take(i as int)),
                s@.scales == Map::<Seq<char>, KLineScale>::empty(),
            decreases entries.len() - i,
        {
            proof {
                let next = pieces(entries@).take(i + 1);
                assert(next.drop_last() =~= pieces(entries@).take(i as int));
                assert(next.last() == entries@[i as int]@);
            }
            let entry = to_string(entries[i]);
            s.insert(entry.as_str());
            i += 1;
        }
        proof {
            assert(pieces(entries@).take(i as int) =~= pieces(entries@));
        }
        s
    }

    /// The number of tracked stocks.
    pub fn len(&self) -> (n: usize)
        ensures
            n == self@.codes.len(),
    {
        self.codes.len()
    }

    /// Whether no stock is tracked.
    pub fn is_empty(&self) -> (r: bool)
        ensures
            r == (self@.codes.len() == 0),
    {
        self.codes.len() == 0
    }

    /// Whether the stock of `code` is tracked.
    pub fn contains(&self, code: &str) -> (r: bool)
        ensures
            r == self@.codes.contains(code@),
    {
        let mut i: usize = 0;
        while i < self.codes.len()
            invariant
                i <= self.codes.len(),
                forall|j: int| 0 <= j < i ==> self.codes@[j]@ != code@,
            decreases self.codes.len() - i,
        {
            if same_text(self.codes[i].as_str(), code) {
                proof {
                    assert(texts(self.codes@)[i as int] == code@);
                }
                return true;
            }
            i += 1;
        }
        proof {
            let texts = texts(self.codes@);
            if texts.contains(code@) {
                let j = choose|j: int| 0 <= j < texts.len() && texts[j] == code@;
                assert(self.codes@[j]@ == code@);
            }
        }
        false
    }

    /// Tracks the stock of `code`, where `code` is a stock code and is not
    /// tracked yet. Says whether it did.
    pub fn insert(&mut self, code: &str) -> (added: bool)
        ensures
            old(self).wf() ==> final(self).wf(),
            final(self)@.codes == admitted(old(self)@.codes, code@),
            final(self)@.scales == old(self)@.scales,
            added == (is_stock_code(code@) && !old(self)@.codes.contains(code@)),
    {
        let chars = to_chars(code);
        if !check_code_chars(chars.as_slice()) || self.contains(code) {
            return false;
        }
        let ghost before = texts(self.codes@);
        self.codes.push(to_string(chars.as_slice()));
        proof {
            assert(texts(self.codes@) =~= before.push(code@));
            if valid_codes(before) {
                lemma_admitted_valid(before, code@);
            }
        }
        true
    }

    /// Tracks the stock of `code` no longer.
    pub fn remove(&mut self, code: &str)
        ensures
            old(self).wf() ==> final(self).wf(),
            final(self)@.codes == without(old(self)@.codes, code@),
            final(self)@.scales == old(self)@.scales,
    {
        let mut kept: Vec<String> = Vec::new();
        let mut i: usize = 0;
        let ghost all = texts(self.codes@);
        proof {
            assert(all.take(0) =~= Seq::<Seq<char>>::empty());
            assert(texts(kept@) =~= Seq::<Seq<char>>::empty());
        }
        while i < self.codes.len()
            invariant
                i <= self.codes.len(),
                all == texts(self.codes@),
                texts(kept@) == without(all.take(i as int), code@),
            decreases self.codes.len() - i,
        {
            let ghost before = texts(kept@);
            proof {
                assert(all.take(i + 1).drop_last() =~= all.take(i as int));
                assert(all.take(i + 1).last() == self.codes@[i as int]@);
            }
            if !same_text(self.codes[i].as_str(), code) {
                kept.push(self.codes[i].clone());
                proof {
                    assert(texts(kept@) =~= before.push(self.codes@[i as int]@));
                }
            }
            i += 1;
        }
        proof {
            assert(all.take(i as int) =~= all);
            if valid_codes(all) {
                lemma_without_valid(all, code@);
            }
        }
        self.codes = kept;
    }

    /// The resolution that the bars of `code` are asked at: the one that was
    /// set for it, else fifteen minutes.
    pub fn scale_of(&self, code: &str) -> (scale: KLineScale)
        ensures
            scale == self@.scale_of(code@),
    {
        match self.find_scale(code) {
            Some(i) => self.scales[i].1,
            None => KLineScale::Munute15,
        }
    }

    /// The place of the last entry for `code`.
    fn find_scale(&self, code: &str) -> (r: Option<usize>)
        ensures
            match r {
                Some(i) => i < self.scales@.len() && self.scales@[i as int].0@ == code@
                    && scale_map(self.scales.deep_view()).dom().contains(code@) && scale_map(
                    self.scales.deep_view(),
                )[code@] == self.scales@[i as int].1 && forall|j: int|
                    i < j < self.scales@.len() ==> (#[trigger] self.scales.deep_view()[j]).0
                        != code@,
                None => !scale_map(self.scales.deep_view()).dom().contains(code@) && forall|j: int|
                    0 <= j < self.scales@.len() ==> (#[trigger] self.scales.deep_view()[j]).0
                        != code@,
            },
    {
        let mut i: usize = self.scales.len();
        while i > 0
            invariant
                i <= self.scales.len(),
                forall|j: int|
                    i <= j < self.scales@.len() ==> (#[trigger] self.scales.deep_view()[j]).0
                        != code@,
            decreases i,
        {
            i -= 1;
            if same_text(self.scales[i].0.as_str(), code) {
                proof {
                    assert(self.scales.deep_view()[i as int] == (
                        self.scales@[i as int].0@,
                        self.scales@[i as int].1,
                    ));
                    lemma_scale_map_found(self.scales.deep_view(), i as int);
                }
                return Some(i);
            }
            proof {
                assert(self.scales.deep_view()[i as int].0 == self.scales@[i as int].0@);
            }
        }
        proof {
            lemma_scale_map_missing(self.scales.deep_view(), code@);
        }
        None
    }

    /// Sets the resolution that the bars of `code` are asked at.
    pub fn set_scale(&mut self, code: &str, scale: KLineScale)
        ensures
            final(self)@.codes == old(self)@.codes,
            final(self)@.scales == old(self)@.scales.insert(code@, scale),
            old(self).wf() ==> final(self).wf(),
    {
        let ghost before = self.scales.deep_view();
        let chars = to_chars(code);
        let owned = to_string(chars.as_slice());
        match self.find_scale(code) {
            Some(i) => {
                self.scales[i] = (owned, scale);
                proof {
                    assert(self.scales.deep_view() =~= before.update(i as int, (code@, scale)));
                    lemma_scale_map_update(before, i as int, scale);
                }
            },
            None => {
                self.scales.push((owned, scale));
                proof {
                    assert(self.scales.deep_view() =~= before.push((code@, scale)));
                    assert(before.push((code@, scale)).drop_last() =~= before);
                }
            },
        }
    }

    /// The tracked codes, in the order of their admission.
    pub fn codes(&self) -> (out: Vec<String>)
        ensures
            texts(out@) == self@.codes,
    {
        let mut out: Vec<String> = Vec::new();
        let mut i: usize = 0;
        while i < self.codes.len()
            invariant
                i <= self.codes.len(),
                out@.len() == i,
                forall|j: int| 0 <= j < i ==> (#[trigger] out@[j])@ == self.codes@[j]@,
            decreases self.codes.len() - i,
        {
            out.push(self.codes[i].clone());
            i += 1;
        }
        proof {
            assert(texts(out@) =~= texts(self.codes@));
        }
        out
    }
}

} // verus!
