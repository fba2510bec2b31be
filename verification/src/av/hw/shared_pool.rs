use vstd::prelude::*;
use vstd::string::StringExecFns;

use crate::av::error::AvError;

verus! {

/// How many textures a pool holds at most.
pub const MAX_SLOTS: usize = 96;

/// A texture of a pool, lent out until it is released.
#[derive(Debug)]
pub struct SlotLoan {
    slot: usize,
    generation: u64,
    fence_value: u64,
}

impl SlotLoan {
    pub closed spec fn slot_spec(&self) -> nat {
        self.slot as nat
    }

    pub closed spec fn generation_spec(&self) -> nat {
        self.generation as nat
    }

    pub closed spec fn fence_spec(&self) -> nat {
        self.fence_value as nat
    }

    /// Which texture is lent.
    pub fn slot(&self) -> (r: usize)
        ensures
            r == self.slot_spec(),
    {
        self.slot
    }

    /// What the fence must reach before the texture is read.
    pub fn fence_value(&self) -> (r: u64)
        ensures
            r == self.fence_spec(),
    {
        self.fence_value
    }
}

/// What a pool holds: textures numbered from zero, those that are free, for
/// which dimensions they were made, how often the dimensions have changed,
/// and the last fence value given out.
#[verifier::ext_equal]
pub ghost struct PoolModel {
    pub count: nat,
    pub free: Seq<usize>,
    pub dims: Option<(u32, u32)>,
    pub generation: nat,
    pub fence: nat,
}

impl PoolModel {
    pub open spec fn empty() -> Self {
        PoolModel { count: 0, free: Seq::empty(), dims: None, generation: 0, fence: 0 }
    }

    pub open spec fn valid(self) -> bool {
        &&& self.count <= MAX_SLOTS
        &&& self.free.no_duplicates()
        &&& forall|i: int| 0 <= i < self.free.len() ==> (#[trigger] self.free[i]) < self.count
    }

    /// A change of dimensions gives up all textures.
    pub open spec fn resized(self, width: u32, height: u32) -> Self {
        if self.dims == Some((width, height)) {
            self
        } else {
            PoolModel {
                count: 0,
                free: Seq::empty(),
                dims: Some((width, height)),
                generation: self.generation + 1,
                fence: self.fence,
            }
        }
    }

    /// The texture freed last is lent.
    pub open spec fn lent(self) -> Self {
        PoolModel { free: self.free.drop_last(), fence: self.fence + 1, ..self }
    }

    /// A new texture is lent.
    pub open spec fn grown(self) -> Self {
        PoolModel { count: self.count + 1, fence: self.fence + 1, ..self }
    }

    /// Whether a loan is still out; those of earlier dimensions always are.
    pub open spec fn lends(self, slot: nat, generation: nat) -> bool {
        &&& generation <= self.generation
        &&& generation == self.generation ==> slot < self.count && !self.free.contains(
            slot as usize,
        )
    }

    /// A loan comes back: its texture is free, unless the dimensions changed.
    /// Another texture may bear its number then, and stays lent until its own
    /// loan comes back.
    pub open spec fn returned(self, slot: nat, generation: nat) -> Self {
        if generation == self.generation && slot < self.count {
            PoolModel { free: self.free.push(slot as usize), ..self }
        } else {
            self
        }
    }
}

/// Keeps account of the textures shared between the decoder and the screen.
#[derive(Debug)]
pub struct SharedNvPool {
    count: usize,
    free: Vec<usize>,
    dims: Option<(u32, u32)>,
    generation: u64,
    fence: u64,
}

impl View for SharedNvPool {
    type V = PoolModel;

    closed spec fn view(&self) -> PoolModel {
        PoolModel {
            count: self.count as nat,
            free: self.free@,
            dims: self.dims,
            generation: self.generation as nat,
            fence: self.fence as nat,
        }
    }
}

impl SharedNvPool {
    pub fn new() -> (r: Self)
        ensures
            r@ == PoolModel::empty(),
            r@.valid(),
    {
        SharedNvPool { count: 0, free: Vec::new(), dims: None, generation: 0, fence: 0 }
    }

    /// Whether there are numbers left for another loan and for another change
    /// of dimensions.
    pub fn can_count(&self) -> (r: bool)
        ensures
            r == (self@.generation < u64::MAX && self@.fence < u64::MAX),
    {
        self.generation < u64::MAX && self.fence < u64::MAX
    }

    /// Prepares for textures of the given dimensions.  Returns whether they
    /// differ from the last ones: all textures are then to be closed.
    pub fn resize(&mut self, width: u32, height: u32) -> (r: bool)
        requires
            old(self)@.valid(),
            old(self)@.generation < u64::MAX,
        ensures
            r == (old(self)@.dims != Some((width, height))),
            final(self)@ == old(self)@.resized(width, height),
            final(self)@.valid(),
    {
        let same = match self.dims {
            Some((w, h)) => w == width && h == height,
            None => false,
        };
        if !same {
            self.count = 0;
            self.free = Vec::new();
            self.dims = Some((width, height));
            self.generation = self.generation + 1;
        }
        !same
    }

    /// Lends a free texture.  Without one, `Ok(None)` asks for a new texture,
    /// to be reported with [`SharedNvPool::grow`]; an error says that there
    /// are as many as there may be.
    pub fn lend(&mut self) -> (r: Result<Option<SlotLoan>, AvError>)
        requires
            old(self)@.valid(),
            old(self)@.fence < u64::MAX,
        ensures
            final(self)@.valid(),
            match r {
                Ok(Some(loan)) => {
                    &&& old(self)@.free.len() > 0
                    &&& final(self)@ == old(self)@.lent()
                    &&& loan.slot_spec() == old(self)@.free.last()
                    &&& loan.generation_spec() == old(self)@.generation
                    &&& loan.fence_spec() == old(self)@.fence + 1
                },
                Ok(None) => {
                    &&& old(self)@.free.len() == 0
                    &&& old(self)@.count < MAX_SLOTS
                    &&& final(self)@ == old(self)@
                },
                Err(e) => {
                    &&& old(self)@.free.len() == 0
                    &&& old(self)@.count == MAX_SLOTS
                    &&& final(self)@ == old(self)@
                    &&& e matches AvError::HwInitFailed(m) && m@
                        == "pool de texturas compartilhadas esgotado"@
                },
            },
    {
        match self.free.pop() {
            Some(slot) => {
                self.fence = self.fence + 1;
                Ok(
                    Some(
                        SlotLoan { slot, generation: self.generation, fence_value: self.fence },
                    ),
                )
            },
            None => {
                assert(self.free@ =~= old(self).free@);
                if self.count >= MAX_SLOTS {
                    Err(
                        AvError::HwInitFailed(
                            String::from_str("pool de texturas compartilhadas esgotado"),
                        ),
                    )
                } else {
                    Ok(None)
                }
            },
        }
    }

    /// Adds a texture that was just made and lends it.
    pub fn grow(&mut self) -> (r: SlotLoan)
        requires
            old(self)@.valid(),
            old(self)@.count < MAX_SLOTS,
            old(self)@.fence < u64::MAX,
        ensures
            final(self)@.valid(),
            final(self)@ == old(self)@.grown(),
            r.slot_spec() == old(self)@.count,
            r.generation_spec() == old(self)@.generation,
            r.fence_spec() == old(self)@.fence + 1,
    {
        let slot: usize = self.count;
        self.count = slot + 1;
        self.fence = self.fence + 1;
        SlotLoan { slot, generation: self.generation, fence_value: self.fence }
    }

    /// Takes a texture back.
    pub fn release(&mut self, loan: SlotLoan)
        requires
            old(self)@.valid(),
            old(self)@.lends(loan.slot_spec(), loan.generation_spec()),
        ensures
            final(self)@ == old(self)@.returned(loan.slot_spec(), loan.generation_spec()),
            final(self)@.valid(),
    {
        if loan.generation == self.generation && loan.slot < self.count {
            self.free.push(loan.slot);
        }
    }
}

/// A texture that is lent is not lent again, and stays lent through whatever
/// else the pool does, until it is released or the dimensions change.
pub proof fn law_lent_textures_are_not_overwritten(
    pool: PoolModel,
    slot: nat,
    width: u32,
    height: u32,
    other: nat,
)
    requires
        pool.valid(),
        slot < pool.count,
        pool.lends(slot, pool.generation),
        pool.lends(other, pool.generation),
        other != slot,
    ensures
        pool.free.len() > 0 ==> pool.free.last() != slot && pool.lent().lends(
            slot,
            pool.generation,
        ),
        pool.count != slot && pool.grown().lends(slot, pool.generation),
        pool.returned(other, pool.generation).lends(slot, pool.generation),
        pool.resized(width, height).lends(slot, pool.generation),
{
    if pool.free.len() > 0 {
        assert(pool.free.contains(pool.free.last()));
    }
    let back = pool.returned(other, pool.generation).free;
    if back.contains(slot as usize) {
        let i = choose|i: int| 0 <= i < back.len() && back[i] == slot as usize;
        if i < pool.free.len() {
            assert(pool.free[i] == slot as usize);
        }
    }
}

/// Whichever texture is lent, one that was free or a new one, is out from
/// then on.
pub proof fn law_loans_are_out(pool: PoolModel)
    requires
        pool.valid(),
    ensures
        pool.free.len() > 0 ==> pool.lent().lends(pool.free.last() as nat, pool.generation),
        pool.grown().lends(pool.count, pool.generation),
{
    if pool.free.len() > 0 {
        let rest = pool.free.drop_last();
        if rest.contains(pool.free.last()) {
            let i = choose|i: int| 0 <= i < rest.len() && rest[i] == pool.free.last();
            assert(pool.free[i] == pool.free[pool.free.len() - 1]);
        }
    }
    if pool.free.contains(pool.count as usize) {
        let i = choose|i: int| 0 <= i < pool.free.len() && pool.free[i] == pool.count as usize;
        assert(pool.free[i] < pool.count);
    }
}

/// A texture lent for earlier dimensions does not come back into use.
pub proof fn law_outdated_textures_are_not_reused(
    pool: PoolModel,
    slot: nat,
    width: u32,
    height: u32,
)
    requires
        pool.dims != Some((width, height)),
    ensures
        pool.resized(width, height).returned(slot, pool.generation) == pool.resized(width, height),
{
}

/// A texture that comes back is the next one lent; nothing else changes by
/// that but the fence, which goes up by one with every loan.
pub proof fn law_returned_textures_are_lent_next(pool: PoolModel, slot: nat)
    requires
        pool.valid(),
        slot < pool.count,
    ensures
        ({
            let back = pool.returned(slot, pool.generation);
            &&& back.free.len() == pool.free.len() + 1
            &&& back.free.last() == slot
            &&& back.count == pool.count && back.dims == pool.dims
            &&& back.generation == pool.generation && back.fence == pool.fence
            &&& back.lent().free == pool.free
            &&& back.lent().fence == pool.fence + 1
            &&& back.lent().count == pool.count && back.lent().dims == pool.dims
            &&& back.lent().generation == pool.generation
        }),
{
    assert(pool.free.push(slot as usize).drop_last() =~= pool.free);
}

/// A pool grows by one texture at a time, to 96 at most, and a new texture
/// leaves those that are free alone.
pub proof fn law_pools_grow_to_their_limit(pool: PoolModel)
    requires
        pool.valid(),
    ensures
        pool.count <= 96,
        pool.count < 96 ==> pool.grown().valid(),
        pool.count == 96 ==> !pool.grown().valid(),
        pool.grown().count == pool.count + 1,
        pool.grown().fence == pool.fence + 1,
        pool.grown().free == pool.free,
        pool.grown().dims == pool.dims,
        pool.grown().generation == pool.generation,
        PoolModel::empty().count == 0 && PoolModel::empty().fence == 0,
        PoolModel::empty().free.len() == 0 && PoolModel::empty().dims is None,
{
}

/// Other dimensions give all textures up and are counted; the same ones change
/// nothing.  The fence goes on either way.
pub proof fn law_new_dimensions_empty_the_pool(pool: PoolModel, width: u32, height: u32)
    ensures
        ({
            let after = pool.resized(width, height);
            &&& after.dims == Some((width, height))
            &&& after.fence == pool.fence
            &&& pool.dims == Some((width, height)) ==> after == pool
            &&& pool.dims != Some((width, height)) ==> after.count == 0 && after.free.len() == 0
                && after.generation == pool.generation + 1
        }),
{
}

} // verus!
