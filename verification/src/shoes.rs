//! Picking shoes by size.

use vstd::prelude::*;

verus! {

/// A shoe of some size and style.
#[derive(PartialEq, Debug)]
pub struct Shoe {
    pub size: u32,
    pub style: String,
}

/// The shoes of one size, in their order.
pub open spec fn of_size(shoes: Seq<Shoe>, size: u32) -> Seq<Shoe>
    decreases shoes.len(),
{
    if shoes.len() == 0 {
        shoes
    } else if shoes.last().size == size {
        of_size(shoes.drop_last(), size).push(shoes.last())
    } else {
        of_size(shoes.drop_last(), size)
    }
}

/// Keeps the shoes of the given size, in their order.
pub fn shoes_in_size(shoes: Vec<Shoe>, shoe_size: u32) -> (fitting: Vec<Shoe>)
    ensures
        fitting@ == of_size(shoes@, shoe_size),
{
    let ghost all = shoes@;
    let mut fitting: Vec<Shoe> = Vec::new();
    for shoe in it: shoes
        invariant
            it.seq() == all,
            fitting@ == of_size(all.take(it.index() as int), shoe_size),
    {
        proof {
            let i = it.index() as int;
            assert(all.take(i + 1).drop_last() =~= all.take(i));
            assert(all.take(i + 1).last() == shoe);
        }
        if shoe.size == shoe_size {
            fitting.push(shoe);
        }
    }
    proof {
        assert(all.take(all.len() as int) =~= all);
    }
    fitting
}

} // verus!
