use vstd::prelude::*;

verus! {

/// One trading day of a price history: its date and its closing price.
///
/// The date and price types are left to the caller: the library only carries them.
#[derive(Debug, Clone, Copy)]
pub struct PriceRow<D, C> {
    pub date: D,
    pub close: C,
}

/// The closing prices of `rows`, in order.
pub open spec fn closes_of<D, C>(rows: Seq<PriceRow<D, C>>) -> Seq<C> {
    rows.map_values(|row: PriceRow<D, C>| row.close)
}

/// The closes of `rows[start..start + len]`, in order.
pub fn closes_between<D: Copy, C: Copy>(rows: &Vec<PriceRow<D, C>>, start: usize, len: usize) -> (closes: Vec<C>)
    requires
        start + len <= rows.len(),
    ensures
        closes@ == closes_of(rows@.subrange(start as int, start + len)),
{
    let mut closes: Vec<C> = Vec::new();
    let mut i: usize = 0;
    while i < len
        invariant
            start + len <= rows.len(),
            i <= len,
            closes@ == closes_of(rows@.subrange(start as int, start + i)),
        decreases len - i,
    {
        closes.push(rows[start + i].close);
        i = i + 1;
        assert(closes@ =~= closes_of(rows@.subrange(start as int, start + i)));
    }
    closes
}

} // verus!
