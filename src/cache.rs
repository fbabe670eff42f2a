use vstd::prelude::*;

verus! {

/// Per-block record of the block cache.
#[derive(Clone, Copy, Debug)]
pub struct BlockMeta {
    pub height: u32,
    pub block_hash: [u8; 32],
    pub block_time: u32,
    pub sapling_outputs_count: u32,
    pub orchard_actions_count: u32,
}

/// Shielded outputs of one transaction: Sapling outputs and Orchard actions.
#[derive(Clone, Copy, Debug)]
pub struct TxCounts {
    pub sapling_outputs: u32,
    pub orchard_actions: u32,
}

pub open spec fn sum_sapling(txs: Seq<TxCounts>) -> nat
    decreases txs.len(),
{
    if txs.len() == 0 {
        0
    } else {
        sum_sapling(txs.drop_last()) + txs.last().sapling_outputs as nat
    }
}

pub open spec fn sum_orchard(txs: Seq<TxCounts>) -> nat
    decreases txs.len(),
{
    if txs.len() == 0 {
        0
    } else {
        sum_orchard(txs.drop_last()) + txs.last().orchard_actions as nat
    }
}

proof fn lemma_sums_grow(txs: Seq<TxCounts>, i: int)
    requires
        0 <= i <= txs.len(),
    ensures
        sum_sapling(txs.take(i)) <= sum_sapling(txs),
        sum_orchard(txs.take(i)) <= sum_orchard(txs),
    decreases txs.len(),
{
    if i < txs.len() {
        assert(txs.drop_last().take(i) == txs.take(i));
        lemma_sums_grow(txs.drop_last(), i);
    } else {
        assert(txs.take(i) == txs);
    }
}

/// The cache record of a block, from its height, hash and time and the
/// shielded outputs of its transactions; `None` when a total does not fit
/// in 32 bits.
pub fn block_meta(height: u32, block_hash: [u8; 32], block_time: u32, txs: &Vec<TxCounts>) -> (r:
    Option<BlockMeta>)
    ensures
        r is Some <==> sum_sapling(txs@) <= u32::MAX && sum_orchard(txs@) <= u32::MAX,
        r is Some ==> {
            &&& r->0.height == height
            &&& r->0.block_hash == block_hash
            &&& r->0.block_time == block_time
            &&& r->0.sapling_outputs_count == sum_sapling(txs@)
            &&& r->0.orchard_actions_count == sum_orchard(txs@)
        },
{
    let mut sapling: u32 = 0;
    let mut orchard: u32 = 0;
    let mut i: usize = 0;
    while i < txs.len()
        invariant
            i <= txs@.len(),
            sapling == sum_sapling(txs@.take(i as int)),
            orchard == sum_orchard(txs@.take(i as int)),
        decreases txs@.len() - i,
    {
        proof {
            let t = txs@.take(i as int + 1);
            assert(t.drop_last() == txs@.take(i as int));
            assert(t.last() == txs@[i as int]);
            lemma_sums_grow(txs@, i as int + 1);
        }
        let tx = txs[i];
        let s = sapling.checked_add(tx.sapling_outputs);
        let o = orchard.checked_add(tx.orchard_actions);
        match (s, o) {
            (Some(s), Some(o)) => {
                sapling = s;
                orchard = o;
            },
            _ => {
                return None;
            },
        }
        i = i + 1;
    }
    proof {
        assert(txs@.take(i as int) == txs@);
    }
    Some(
        BlockMeta {
            height,
            block_hash,
            block_time,
            sapling_outputs_count: sapling,
            orchard_actions_count: orchard,
        },
    )
}

/// Whether no two records of `s` share a height.
pub open spec fn heights_unique(s: Seq<BlockMeta>) -> bool {
    forall|i: int, j: int|
        0 <= i < s.len() && 0 <= j < s.len() && i != j ==> s[i].height != s[j].height
}

pub open spec fn holds_height(s: Seq<BlockMeta>, h: u32) -> bool {
    exists|i: int| 0 <= i < s.len() && s[i].height == h
}

/// The records of `s` keyed by height.
pub open spec fn by_height(s: Seq<BlockMeta>) -> Map<u32, BlockMeta> {
    Map::new(
        |h: u32| holds_height(s, h),
        |h: u32| s[choose|i: int| 0 <= i < s.len() && s[i].height == h],
    )
}

/// The cache contents `m` after the records `metas` are written in order, each
/// replacing the record of its height.
pub open spec fn with_blocks(m: Map<u32, BlockMeta>, metas: Seq<BlockMeta>) -> Map<u32, BlockMeta>
    decreases metas.len(),
{
    if metas.len() == 0 {
        m
    } else {
        with_blocks(m, metas.drop_last()).insert(metas.last().height, metas.last())
    }
}

/// The cache contents `m` with every record above height `h` gone.
pub open spec fn truncated(m: Map<u32, BlockMeta>, h: u32) -> Map<u32, BlockMeta> {
    m.restrict(m.dom().filter(|k: u32| k <= h))
}

/// The last record of `metas` at height `k`, if any.
pub open spec fn last_at(metas: Seq<BlockMeta>, k: u32) -> Option<BlockMeta>
    decreases metas.len(),
{
    if metas.len() == 0 {
        None
    } else if metas.last().height == k {
        Some(metas.last())
    } else {
        last_at(metas.drop_last(), k)
    }
}

proof fn lemma_with_blocks_at(m: Map<u32, BlockMeta>, metas: Seq<BlockMeta>, k: u32)
    ensures
        with_blocks(m, metas).contains_key(k) == (last_at(metas, k) is Some || m.contains_key(k)),
        last_at(metas, k) is Some ==> with_blocks(m, metas)[k] == last_at(metas, k)->0,
        last_at(metas, k) is None && m.contains_key(k) ==> with_blocks(m, metas)[k] == m[k],
    decreases metas.len(),
{
    if metas.len() > 0 {
        lemma_with_blocks_at(m, metas.drop_last(), k);
    }
}

/// Writing the records of a downloaded range again leaves the cache as one
/// write left it: after any number of downloads of the same range the cache
/// holds what it holds after one.
pub proof fn lemma_write_idempotent(m: Map<u32, BlockMeta>, metas: Seq<BlockMeta>)
    ensures
        with_blocks(with_blocks(m, metas), metas) == with_blocks(m, metas),
{
    let once = with_blocks(m, metas);
    let twice = with_blocks(once, metas);
    assert forall|k: u32| #[trigger] twice.contains_key(k) == once.contains_key(k) by {
        lemma_with_blocks_at(m, metas, k);
        lemma_with_blocks_at(once, metas, k);
    }
    assert forall|k: u32| #[trigger] twice.contains_key(k) implies twice[k] == once[k] by {
        lemma_with_blocks_at(m, metas, k);
        lemma_with_blocks_at(once, metas, k);
    }
    assert(twice =~= once);
}

/// The cache contents `m` after the same records `metas` are written `n`
/// times over.
pub open spec fn written_times(m: Map<u32, BlockMeta>, metas: Seq<BlockMeta>, n: nat) -> Map<
    u32,
    BlockMeta,
>
    decreases n,
{
    if n == 0 {
        m
    } else {
        with_blocks(written_times(m, metas, (n - 1) as nat), metas)
    }
}

/// Downloading the same range `n >= 1` times leaves the cache as one
/// download does.
pub proof fn lemma_write_n_times(m: Map<u32, BlockMeta>, metas: Seq<BlockMeta>, n: nat)
    requires
        n >= 1,
    ensures
        written_times(m, metas, n) == with_blocks(m, metas),
    decreases n,
{
    if n > 1 {
        lemma_write_n_times(m, metas, (n - 1) as nat);
        lemma_write_idempotent(m, metas);
        assert(written_times(m, metas, n) == with_blocks(written_times(m, metas, (n - 1) as nat), metas));
    } else {
        assert(written_times(m, metas, 0) == m);
        assert(written_times(m, metas, 1) == with_blocks(written_times(m, metas, 0), metas));
    }
}

/// Truncating to height `h` leaves no record above `h` and every record at
/// or below `h` as it was.
pub proof fn lemma_truncate_keeps_below(m: Map<u32, BlockMeta>, h: u32)
    ensures
        forall|k: u32| #[trigger] truncated(m, h).contains_key(k) ==> k <= h,
        forall|k: u32|
            k <= h ==> (#[trigger] truncated(m, h).contains_key(k) == m.contains_key(k)),
        forall|k: u32| k <= h && m.contains_key(k) ==> #[trigger] truncated(m, h)[k] == m[k],
{
}

proof fn lemma_by_height_at(s: Seq<BlockMeta>, i: int)
    requires
        heights_unique(s),
        0 <= i < s.len(),
    ensures
        by_height(s).contains_key(s[i].height),
        by_height(s)[s[i].height] == s[i],
{
    let h = s[i].height;
    assert(holds_height(s, h));
    let j = choose|j: int| 0 <= j < s.len() && s[j].height == h;
    assert(j == i);
}

/// An in-memory model of the block cache's metadata index: one record for
/// each cached block file, keyed by height. A cache kept on disk holds this
/// index in its own database; this type states what writing a downloaded
/// range and truncating after a rewind do to it, and the laws above are
/// proved of this model, not of any on-disk cache.
pub struct BlockCache {
    pub blocks: Vec<BlockMeta>,
}

impl View for BlockCache {
    type V = Map<u32, BlockMeta>;

    open spec fn view(&self) -> Map<u32, BlockMeta> {
        by_height(self.blocks@)
    }
}

impl BlockCache {
    pub open spec fn wf(&self) -> bool {
        heights_unique(self.blocks@)
    }

    pub fn new() -> (r: BlockCache)
        ensures
            r.wf(),
            r@ == Map::<u32, BlockMeta>::empty(),
    {
        let r = BlockCache { blocks: Vec::new() };
        proof {
            assert(r@ =~= Map::<u32, BlockMeta>::empty());
        }
        r
    }

    /// Looks up the record of the block at `height`.
    pub fn get(&self, height: u32) -> (r: Option<BlockMeta>)
        requires
            self.wf(),
        ensures
            r is Some <==> self@.contains_key(height),
            r is Some ==> r->0 == self@[height],
    {
        let mut i: usize = 0;
        while i < self.blocks.len()
            invariant
                i <= self.blocks@.len(),
                heights_unique(self.blocks@),
                forall|j: int| 0 <= j < i ==> self.blocks@[j].height != height,
            decreases self.blocks@.len() - i,
        {
            if self.blocks[i].height == height {
                proof {
                    lemma_by_height_at(self.blocks@, i as int);
                }
                return Some(self.blocks[i]);
            }
            i = i + 1;
        }
        None
    }

    /// Writes the record of one block, replacing any record at its height.
    pub fn write_block(&mut self, meta: BlockMeta)
        requires
            old(self).wf(),
        ensures
            final(self).wf(),
            final(self)@ == old(self)@.insert(meta.height, meta),
    {
        let ghost s0 = self.blocks@;
        let mut i: usize = 0;
        while i < self.blocks.len()
            invariant
                self.blocks@ == s0,
                s0 == old(self).blocks@,
                heights_unique(s0),
                i <= s0.len(),
                forall|j: int| 0 <= j < i ==> s0[j].height != meta.height,
            decreases s0.len() - i,
        {
            if self.blocks[i].height == meta.height {
                self.blocks.set(i, meta);
                proof {
                    let s1 = self.blocks@;
                    assert forall|k: int| 0 <= k < s1.len() implies #[trigger] s1[k].height
                        == s0[k].height by {}
                    assert(heights_unique(s1));
                    assert forall|h: u32| #[trigger] by_height(s1).contains_key(h) == by_height(
                        s0,
                    ).insert(meta.height, meta).contains_key(h) by {
                        if holds_height(s0, h) && h != meta.height {
                            let j = choose|j: int| 0 <= j < s0.len() && s0[j].height == h;
                            assert(s1[j].height == h);
                        }
                        if h == meta.height {
                            assert(s1[i as int].height == h);
                        }
                        if holds_height(s1, h) && h != meta.height {
                            let j = choose|j: int| 0 <= j < s1.len() && s1[j].height == h;
                            assert(s0[j].height == h);
                        }
                    }
                    assert forall|h: u32| #[trigger] by_height(s1).contains_key(h) implies by_height(s1)[h]
                        == by_height(s0).insert(meta.height, meta)[h] by {
                        let j = choose|j: int| 0 <= j < s1.len() && s1[j].height == h;
                        lemma_by_height_at(s1, j);
                        if j != i {
                            assert(s0[j] == s1[j]);
                            lemma_by_height_at(s0, j);
                        }
                    }
                    assert(by_height(s1) =~= by_height(s0).insert(meta.height, meta));
                }
                return;
            }
            i = i + 1;
        }
        self.blocks.push(meta);
        proof {
            let s1 = self.blocks@;
            assert(s1[s0.len() as int] == meta);
            assert(heights_unique(s1));
            assert forall|h: u32| #[trigger] by_height(s1).contains_key(h) == by_height(s0).insert(
                meta.height,
                meta,
            ).contains_key(h) by {
                if holds_height(s0, h) {
                    let j = choose|j: int| 0 <= j < s0.len() && s0[j].height == h;
                    assert(s1[j].height == h);
                }
                if h == meta.height {
                    assert(s1[s0.len() as int].height == h);
                }
                if holds_height(s1, h) && h != meta.height {
                    let j = choose|j: int| 0 <= j < s1.len() && s1[j].height == h;
                    assert(s0[j].height == h);
                }
            }
            assert forall|h: u32| #[trigger] by_height(s1).contains_key(h) implies by_height(s1)[h]
                == by_height(s0).insert(meta.height, meta)[h] by {
                let j = choose|j: int| 0 <= j < s1.len() && s1[j].height == h;
                lemma_by_height_at(s1, j);
                if j != s0.len() {
                    assert(s0[j] == s1[j]);
                    lemma_by_height_at(s0, j);
                }
            }
            assert(by_height(s1) =~= by_height(s0).insert(meta.height, meta));
        }
    }

    /// Writes the records of a downloaded range in order, each replacing any
    /// record at its height.
    pub fn write_blocks(&mut self, metas: &Vec<BlockMeta>)
        requires
            old(self).wf(),
        ensures
            final(self).wf(),
            final(self)@ == with_blocks(old(self)@, metas@),
    {
        let mut i: usize = 0;
        while i < metas.len()
            invariant
                i <= metas@.len(),
                self.wf(),
                self@ == with_blocks(old(self)@, metas@.take(i as int)),
            decreases metas@.len() - i,
        {
            proof {
                let t = metas@.take(i as int + 1);
                assert(t.drop_last() == metas@.take(i as int));
                assert(t.last() == metas@[i as int]);
            }
            self.write_block(metas[i]);
            i = i + 1;
        }
        proof {
            assert(metas@.take(i as int) == metas@);
        }
    }

    /// Removes every record above `height` and returns the removed records,
    /// whose block files are then to be deleted.
    pub fn truncate_to_height(&mut self, height: u32) -> (removed: Vec<BlockMeta>)
        requires
            old(self).wf(),
        ensures
            final(self).wf(),
            final(self)@ == truncated(old(self)@, height),
            forall|x: int|
                0 <= x < removed@.len() ==> (#[trigger] removed@[x]).height > height
                    && old(self)@.contains_key(removed@[x].height) && old(self)@[removed@[x].height]
                    == removed@[x],
            forall|k: u32|
                #[trigger] old(self)@.contains_key(k) && k > height ==> exists|x: int|
                    0 <= x < removed@.len() && removed@[x].height == k,
            heights_unique(removed@),
    {
        let ghost s0 = self.blocks@;
        let mut kept: Vec<BlockMeta> = Vec::new();
        let mut removed: Vec<BlockMeta> = Vec::new();
        let ghost mut ki: Seq<int> = Seq::empty();
        let ghost mut ri: Seq<int> = Seq::empty();
        let mut i: usize = 0;
        while i < self.blocks.len()
            invariant
                self.blocks@ == s0,
                heights_unique(s0),
                i <= s0.len(),
                ki.len() == kept@.len(),
                ri.len() == removed@.len(),
                forall|x: int|
                    0 <= x < ki.len() ==> 0 <= #[trigger] ki[x] < i && kept@[x] == s0[ki[x]]
                        && s0[ki[x]].height <= height,
                forall|x: int, y: int| 0 <= x < y < ki.len() ==> #[trigger] ki[x] < #[trigger] ki[y],
                forall|x: int, y: int| 0 <= x < y < ri.len() ==> #[trigger] ri[x] < #[trigger] ri[y],
                forall|x: int|
                    0 <= x < ri.len() ==> 0 <= #[trigger] ri[x] < i && removed@[x] == s0[ri[x]]
                        && s0[ri[x]].height > height,
                forall|j: int|
                    0 <= j < i && #[trigger] s0[j].height <= height ==> exists|x: int|
                        0 <= x < ki.len() && ki[x] == j,
                forall|j: int|
                    0 <= j < i && #[trigger] s0[j].height > height ==> exists|x: int|
                        0 <= x < ri.len() && ri[x] == j,
            decreases s0.len() - i,
        {
            let ghost ki0 = ki;
            let ghost ri0 = ri;
            let b = self.blocks[i];
            if b.height <= height {
                kept.push(b);
                proof {
                    ki = ki.push(i as int);
                    assert(kept@[ki.len() - 1] == s0[i as int]);
                }
            } else {
                removed.push(b);
                proof {
                    ri = ri.push(i as int);
                    assert(removed@[ri.len() - 1] == s0[i as int]);
                }
            }
            proof {
                assert forall|j: int| 0 <= j < i + 1 && #[trigger] s0[j].height <= height implies exists|x: int|
                    0 <= x < ki.len() && ki[x] == j by {
                    if j == i {
                        assert(ki[ki.len() - 1] == j);
                    } else {
                        let x = choose|x: int| 0 <= x < ki0.len() && ki0[x] == j;
                        assert(ki[x] == j);
                    }
                }
                assert forall|j: int| 0 <= j < i + 1 && #[trigger] s0[j].height > height implies exists|x: int|
                    0 <= x < ri.len() && ri[x] == j by {
                    if j == i {
                        assert(ri[ri.len() - 1] == j);
                    } else {
                        let x = choose|x: int| 0 <= x < ri0.len() && ri0[x] == j;
                        assert(ri[x] == j);
                    }
                }
            }
            i = i + 1;
        }
        proof {
            let k = kept@;
            let m0 = by_height(s0);
            assert(heights_unique(k)) by {
                assert forall|x: int, y: int| 0 <= x < k.len() && 0 <= y < k.len() && x != y implies k[x].height
                    != k[y].height by {
                    if x < y {
                        assert(ki[x] < ki[y]);
                    } else {
                        assert(ki[y] < ki[x]);
                    }
                }
            }
            assert(heights_unique(removed@)) by {
                let rm = removed@;
                assert forall|x: int, y: int| 0 <= x < rm.len() && 0 <= y < rm.len() && x != y implies rm[x].height
                    != rm[y].height by {
                    if x < y {
                        assert(ri[x] < ri[y]);
                    } else {
                        assert(ri[y] < ri[x]);
                    }
                }
            }
            assert forall|h: u32| #[trigger] by_height(k).contains_key(h) == truncated(m0, height).contains_key(h) by {
                if holds_height(k, h) {
                    let x = choose|x: int| 0 <= x < k.len() && k[x].height == h;
                    assert(s0[ki[x]].height == h);
                }
                if holds_height(s0, h) && h <= height {
                    let j = choose|j: int| 0 <= j < s0.len() && s0[j].height == h;
                    let x = choose|x: int| 0 <= x < ki.len() && ki[x] == j;
                    assert(k[x].height == h);
                }
            }
            assert forall|h: u32| #[trigger] by_height(k).contains_key(h) implies by_height(k)[h]
                == truncated(m0, height)[h] by {
                let x = choose|x: int| 0 <= x < k.len() && k[x].height == h;
                lemma_by_height_at(k, x);
                lemma_by_height_at(s0, ki[x]);
            }
            assert(by_height(k) =~= truncated(m0, height));
            assert forall|x: int| 0 <= x < removed@.len() implies (#[trigger] removed@[x]).height > height
                && m0.contains_key(removed@[x].height) && m0[removed@[x].height] == removed@[x] by {
                lemma_by_height_at(s0, ri[x]);
            }
            assert forall|h: u32| #[trigger] m0.contains_key(h) && h > height implies exists|x: int|
                0 <= x < removed@.len() && removed@[x].height == h by {
                let j = choose|j: int| 0 <= j < s0.len() && s0[j].height == h;
                let x = choose|x: int| 0 <= x < ri.len() && ri[x] == j;
                assert(removed@[x].height == h);
            }
        }
        self.blocks = kept;
        removed
    }
}

} // verus!
