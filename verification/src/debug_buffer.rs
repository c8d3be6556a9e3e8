use vstd::prelude::*;
use crate::archive::stored_archive;
use crate::grid::Grid;
use crate::numpy::layers_npy;
use crate::vector::Vector;

verus! {

/// A ring of at most `buffer_size` grids, kept to save the latest states
/// of a simulation.
///
/// While it fills, grids are appended; once full, each new grid replaces
/// the one after the current slot, which then becomes the current slot.
pub struct DebugBuffer<T: Copy> {
    items: Vec<Grid<T>>,
    buffer_size: u32,
    current_idx: u32,
}

impl<T: Vector> DebugBuffer<T> {
    /// The grids in slot order.
    pub closed spec fn items(&self) -> Seq<Grid<T>> {
        self.items@
    }

    /// The number of slots.
    pub closed spec fn capacity(&self) -> nat {
        self.buffer_size as nat
    }

    /// The slot written last once the ring is full; slot `0` while it fills.
    pub closed spec fn current(&self) -> nat {
        self.current_idx as nat
    }

    /// The ring never holds more grids than slots, the current slot is `0`
    /// until the ring is full, and every grid is well formed.
    pub open spec fn wf(&self) -> bool {
        &&& self.items().len() <= self.capacity()
        &&& (self.items().len() < self.capacity() ==> self.current() == 0)
        &&& (self.items().len() == self.capacity() && self.capacity() > 0 ==> self.current()
            < self.capacity())
        &&& forall|i: int| 0 <= i < self.items().len() ==> (#[trigger] self.items()[i]).wf()
    }

    /// The grids in the order saving writes them: from the current slot on,
    /// wrapping around.
    pub open spec fn saved_layers(&self) -> Seq<Grid<T>> {
        Seq::new(
            self.items().len(),
            |k: int| self.items()[(self.current() + k) % (self.items().len() as int)],
        )
    }

    pub fn new(buffer_size: u32) -> (r: Self)
        ensures
            r.wf(),
            r.items().len() == 0,
            r.capacity() == buffer_size,
            r.current() == 0,
    {
        DebugBuffer { items: Vec::new(), buffer_size, current_idx: 0 }
    }

    /// Adds a grid: appended while the ring fills, else written into the
    /// slot after the current one, which becomes current.
    pub fn push(&mut self, grid: Grid<T>)
        requires
            old(self).wf(),
            grid.wf(),
            old(self).capacity() > 0,
        ensures
            final(self).wf(),
            final(self).capacity() == old(self).capacity(),
            old(self).items().len() < old(self).capacity() ==> {
                &&& final(self).items() == old(self).items().push(grid)
                &&& final(self).current() == old(self).current()
            },
            old(self).items().len() == old(self).capacity() ==> {
                let slot = (old(self).current() + 1) % old(self).capacity();
                &&& final(self).items() == old(self).items().update(slot as int, grid)
                &&& final(self).current() == slot
            },
            old(self).items().len() < old(self).capacity() ==> final(self).saved_layers()
                == final(self).items(),
            old(self).items().len() == old(self).capacity() ==> final(self).saved_layers()[0]
                == grid,
    {
        if (self.items.len() as u32) < self.buffer_size {
            self.items.push(grid);
        } else {
            let new_idx = ((self.current_idx as u64 + 1) % self.buffer_size as u64) as u32;
            self.items.set(new_idx as usize, grid);
            self.current_idx = new_idx;
        }
        proof {
            let n = self.items().len() as int;
            if old(self).items().len() < old(self).capacity() {
                assert forall|k: int| 0 <= k < n implies #[trigger] self.saved_layers()[k]
                    == self.items()[k] by {
                    vstd::arithmetic::div_mod::lemma_small_mod(k as nat, n as nat);
                }
                assert(self.saved_layers() =~= self.items());
            } else {
                vstd::arithmetic::div_mod::lemma_small_mod(self.current(), n as nat);
            }
        }
    }

    /// The number of grids held.
    pub fn len(&self) -> (r: usize)
        ensures
            r == self.items().len(),
    {
        self.items.len()
    }

    /// The number of slots.
    pub fn buffer_size(&self) -> (r: u32)
        ensures
            r == self.capacity(),
    {
        self.buffer_size
    }

    /// The grids in the order saving writes them: the current slot first,
    /// then the following slots until the walk wraps back to it or passes
    /// the last grid held.
    pub fn saved_layer_refs(&self) -> (r: Vec<&Grid<T>>)
        requires
            self.wf(),
            self.items().len() > 0,
        ensures
            r@.map_values(|g: &Grid<T>| *g) == self.saved_layers(),
            forall|i: int| 0 <= i < r@.len() ==> (#[trigger] r@[i]).wf(),
    {
        let n = self.items.len();
        let mut save_vec: Vec<&Grid<T>> = Vec::new();
        save_vec.push(&self.items[self.current_idx as usize]);
        let mut idx = ((self.current_idx as u64 + 1) % self.buffer_size as u64) as u32;
        let mut k: usize = 1;
        proof {
            lemma_ring_index(self.current() as int, 0, n as int, self.capacity() as int);
            lemma_ring_index(self.current() as int, 1, n as int, self.capacity() as int);
            vstd::arithmetic::div_mod::lemma_small_mod(self.current(), n as nat);
            assert(*save_vec@[0] == self.saved_layers()[0]);
        }
        while !(idx == self.current_idx || idx as usize >= n)
            invariant
                self.wf(),
                n == self.items().len(),
                n > 0,
                1 <= k <= n,
                idx == (self.current() + k) % (self.capacity() as int),
                (idx == self.current() || idx >= n) <==> k == n,
                save_vec@.len() == k,
                forall|j: int| 0 <= j < k ==> *#[trigger] save_vec@[j] == self.saved_layers()[j],
            decreases n - k,
        {
            proof {
                lemma_ring_index(self.current() as int, k as int, n as int, self.capacity() as int);
                lemma_ring_index(self.current() as int, k + 1, n as int, self.capacity() as int);
                vstd::arithmetic::div_mod::lemma_add_mod_noop(
                    self.current() + k,
                    1,
                    self.capacity() as int,
                );
                vstd::arithmetic::div_mod::lemma_small_mod(1, self.capacity() as nat);
            }
            save_vec.push(&self.items[idx as usize]);
            idx = ((idx as u64 + 1) % self.buffer_size as u64) as u32;
            k = k + 1;
        }
        proof {
            assert(save_vec@.map_values(|g: &Grid<T>| *g) == self.saved_layers());
            assert forall|i: int| 0 <= i < save_vec@.len() implies (#[trigger] save_vec@[i]).wf() by {
                let j = (self.current() + i) % (n as int);
                assert(*save_vec@[i] == self.items()[j]);
            }
        }
        save_vec
    }

    /// The bytes that saving the ring writes: the zip archive of the `.npy`
    /// image of its grids, from the current slot on.
    pub fn save_data(&self) -> (r: Vec<u8>)
        requires
            self.wf(),
            self.items().len() > 0,
            layers_npy(self.saved_layers()).len() <= u32::MAX,
        ensures
            r@ == stored_archive(layers_npy(self.saved_layers())),
    {
        let save_vec = self.saved_layer_refs();
        Grid::save_several_layers_bytes(save_vec.as_slice())
    }
}

/// Walking the ring from the current slot: the `k`-th slot visited, and
/// when the walk ends.
proof fn lemma_ring_index(cur: int, k: int, n: int, cap: int)
    requires
        0 < n <= cap,
        n < cap ==> cur == 0,
        n == cap ==> 0 <= cur < cap,
        0 <= k <= n,
    ensures
        k >= 1 ==> ((cur + k) % cap == cur || (cur + k) % cap >= n) == (k == n),
        k < n ==> (cur + k) % cap == (cur + k) % n,
        0 <= (cur + k) % cap < cap,
{
    if n < cap {
        vstd::arithmetic::div_mod::lemma_small_mod(k as nat, cap as nat);
        if k < n {
            vstd::arithmetic::div_mod::lemma_small_mod(k as nat, n as nat);
        }
    } else {
        if cur + k < n {
            vstd::arithmetic::div_mod::lemma_small_mod((cur + k) as nat, n as nat);
        } else {
            vstd::arithmetic::div_mod::lemma_mod_add_multiples_vanish(cur + k - n, n);
            vstd::arithmetic::div_mod::lemma_small_mod((cur + k - n) as nat, n as nat);
        }
    }
}

} // verus!
