//! Size limits: the quota of a bucket and the free space of the disk.

use crate::error::{ErrorCode, ErrorView, ReductError};
use crate::numbers::{lemma_sum_of_take, sum_of};
use crate::storage::settings::{BucketSettings, QuotaType};
use crate::text::{decimal, decimal_text};
use vstd::prelude::*;

verus! {

/// The last sampled free space of the data folder, reused while it is younger than the
/// configured check interval.
#[derive(Debug, Clone, Copy, PartialEq, Eq)]
pub struct FreeSpaceCache {
    /// When the space was sampled, on the caller's clock; `u64::MAX` before the first sample.
    pub sampled_at_ms: u64,
    pub available: u64,
}

impl Default for FreeSpaceCache {
    fn default() -> (r: FreeSpaceCache)
        ensures
            r == (FreeSpaceCache { sampled_at_ms: u64::MAX, available: 0 }),
    {
        FreeSpaceCache { sampled_at_ms: u64::MAX, available: 0 }
    }
}

impl FreeSpaceCache {
    /// Whether the sample is younger than the interval. A clock that went back does not make
    /// the sample older.
    pub open spec fn fresh(self, now_ms: u64, interval_ms: u64) -> bool {
        self.sampled_at_ms != u64::MAX && interval_ms > 0 && now_ms - self.sampled_at_ms
            < interval_ms
    }

    /// The sample where it is fresh, else a new one, which is kept unless sampling failed.
    pub fn get_or_refresh(
        &mut self,
        now_ms: u64,
        interval_ms: u64,
        sample: impl FnOnce() -> Result<u64, ReductError>,
    ) -> (r: Result<u64, ReductError>)
        requires
            call_requires(sample, ()),
        ensures
            old(self).fresh(now_ms, interval_ms) ==> r == Ok::<u64, ReductError>(
                old(self).available,
            ) && *final(self) == *old(self),
            !old(self).fresh(now_ms, interval_ms) ==> call_ensures(sample, (), r) && *final(self)
                == (match r {
                Ok(available) => FreeSpaceCache { sampled_at_ms: now_ms, available },
                Err(_) => *old(self),
            }),
    {
        if self.sampled_at_ms != u64::MAX {
            let age: u64 = if now_ms >= self.sampled_at_ms {
                now_ms - self.sampled_at_ms
            } else {
                0
            };
            if age < interval_ms {
                return Ok(self.available);
            }
        }
        match sample() {
            Ok(available) => {
                self.available = available;
                self.sampled_at_ms = now_ms;
                Ok(available)
            },
            Err(e) => Err(e),
        }
    }
}

/// The milliseconds in an interval that is given in nanoseconds, in 64 bits.
pub open spec fn interval_ms(interval_ns: u128) -> u64 {
    ((interval_ns / 1_000_000) % 0x1_0000_0000_0000_0000) as u64
}

/// The free space of the data folder. It is sampled every time where no check interval is set.
pub fn available_disk_space(
    cache: &mut FreeSpaceCache,
    now_ms: u64,
    interval_ns: u128,
    sample: impl FnOnce() -> Result<u64, ReductError>,
) -> (r: Result<u64, ReductError>)
    requires
        call_requires(sample, ()),
    ensures
        ({
            let reused = interval_ns != 0 && old(cache).fresh(now_ms, interval_ms(interval_ns));
            &&& reused ==> r == Ok::<u64, ReductError>(old(cache).available)
            &&& !reused ==> call_ensures(sample, (), r)
            &&& *final(cache) == (if reused || interval_ns == 0 {
                *old(cache)
            } else {
                match r {
                    Ok(available) => FreeSpaceCache { sampled_at_ms: now_ms, available },
                    Err(_) => *old(cache),
                }
            })
        }),
{
    if interval_ns == 0 {
        sample()
    } else {
        let ms: u128 = interval_ns / 1_000_000;
        assert(ms as u64 == ms % 0x1_0000_0000_0000_0000) by (bit_vector);
        cache.get_or_refresh(now_ms, ms as u64, sample)
    }
}

/// The error for free space that could not be sampled.
pub fn free_space_failure(cause: &str) -> (r: ReductError)
    ensures
        r@ == (ErrorView {
            status: ErrorCode::InternalServerError,
            message: "Failed to query free disk space for the data folder: "@ + cause@,
        }),
{
    let message = "Failed to query free disk space for the data folder: ".to_owned().concat(cause);
    ReductError { status: ErrorCode::InternalServerError, message }
}

/// The error for a record that does not fit on the disk.
pub open spec fn disk_full(content_size: u64, available: u64) -> ErrorView {
    ErrorView {
        status: ErrorCode::InsufficientStorage,
        message: "Not enough free disk space in the data folder to write a record of "@ + decimal(
            content_size as nat,
        ) + " bytes: only "@ + decimal(available as nat) + " bytes available"@,
    }
}

/// Whether a record fits into the free space.
pub fn check_space(content_size: u64, available: u64) -> (r: Result<(), ReductError>)
    ensures
        r is Ok <==> content_size <= available,
        r matches Err(e) ==> e@ == disk_full(content_size, available),
{
    if content_size > available {
        let message = "Not enough free disk space in the data folder to write a record of ".to_owned().concat(
            decimal_text(content_size).as_str(),
        ).concat(" bytes: only ").concat(decimal_text(available).as_str()).concat(
            " bytes available",
        );
        Err(ReductError { status: ErrorCode::InsufficientStorage, message })
    } else {
        Ok(())
    }
}

/// Whether a check for room came out as the space says that is known: the cached sample where it is
/// used again, else the one that was taken.
pub open spec fn room_checked(
    before: FreeSpaceCache,
    now_ms: u64,
    interval_ns: u128,
    content_size: u64,
    sampled: Option<Result<u64, ReductError>>,
    after: FreeSpaceCache,
    r: Result<(), ReductError>,
) -> bool {
    let reused = interval_ns != 0 && before.fresh(now_ms, interval_ms(interval_ns));
    &&& sampled is None <==> reused
    &&& match sampled {
        Some(Err(e)) => r == Err::<(), ReductError>(e) && after == before,
        _ => {
            let available = match sampled {
                Some(Ok(available)) => available,
                _ => before.available,
            };
            &&& r is Ok <==> content_size <= available
            &&& r matches Err(e) ==> e@ == disk_full(content_size, available)
            &&& after == (if sampled is None || interval_ns == 0 {
                before
            } else {
                FreeSpaceCache { sampled_at_ms: now_ms, available }
            })
        },
    }
}

/// Makes sure that the disk has room for a record before anything is written.
pub fn check_free_disk_space(
    cache: &mut FreeSpaceCache,
    now_ms: u64,
    interval_ns: u128,
    content_size: u64,
    sample: impl FnOnce() -> Result<u64, ReductError>,
) -> (r: Result<(), ReductError>)
    requires
        call_requires(sample, ()),
    ensures
        interval_ns != 0 && old(cache).fresh(now_ms, interval_ms(interval_ns)) ==> {
            &&& *final(cache) == *old(cache)
            &&& r is Ok <==> content_size <= old(cache).available
            &&& r matches Err(e) ==> e@ == disk_full(content_size, old(cache).available)
        },
        !(interval_ns != 0 && old(cache).fresh(now_ms, interval_ms(interval_ns))) ==> exists|
            sampled: Result<u64, ReductError>,
        | #[trigger]
            call_ensures(sample, (), sampled) && match sampled {
                Ok(available) => {
                    &&& r is Ok <==> content_size <= available
                    &&& r matches Err(e) ==> e@ == disk_full(content_size, available)
                    &&& *final(cache) == (if interval_ns == 0 {
                        *old(cache)
                    } else {
                        FreeSpaceCache { sampled_at_ms: now_ms, available }
                    })
                },
                Err(e) => r == Err::<(), ReductError>(e) && *final(cache) == *old(cache),
            },
        exists|sampled: Option<Result<u64, ReductError>>| #[trigger]
            room_checked(
                *old(cache),
                now_ms,
                interval_ns,
                content_size,
                sampled,
                *final(cache),
                r,
            ) && (sampled matches Some(s) ==> call_ensures(sample, (), s)),
{
    let ghost before = *cache;
    let space = available_disk_space(cache, now_ms, interval_ns, sample);
    let ghost sampled = if interval_ns != 0 && before.fresh(now_ms, interval_ms(interval_ns)) {
        None
    } else {
        Some(space)
    };
    let r = match space {
        Ok(available) => check_space(content_size, available),
        Err(e) => Err(e),
    };
    assert(room_checked(before, now_ms, interval_ns, content_size, sampled, *cache, r));
    r
}

/// What a quota asks for before a write.
#[derive(Debug, Clone, Copy, PartialEq, Eq)]
pub enum QuotaCheck {
    /// Nothing.
    Unlimited,
    /// Old blocks make room up to a size.
    Evict(u64),
    /// The write is refused past a size.
    Limit(u64),
}

/// What the settings ask for before a write.
pub open spec fn quota_of(settings: BucketSettings) -> QuotaCheck {
    let size = match settings.quota_size {
        Some(size) => size,
        None => 0,
    };
    match settings.quota_type {
        None => QuotaCheck::Unlimited,
        Some(QuotaType::NONE) => QuotaCheck::Unlimited,
        Some(QuotaType::FIFO) => QuotaCheck::Evict(size),
        Some(QuotaType::HARD) => QuotaCheck::Limit(size),
    }
}

/// What the settings ask for before a write: no quota unless one is set, and a size of zero
/// unless one is set.
pub fn quota_check(settings: &BucketSettings) -> (r: QuotaCheck)
    ensures
        ({
            let size = match settings.quota_size {
                Some(size) => size,
                None => 0,
            };
            r == (match settings.quota_type {
                None => QuotaCheck::Unlimited,
                Some(QuotaType::NONE) => QuotaCheck::Unlimited,
                Some(QuotaType::FIFO) => QuotaCheck::Evict(size),
                Some(QuotaType::HARD) => QuotaCheck::Limit(size),
            })
        }),
        r == quota_of(*settings),
{
    let size: u64 = match settings.quota_size {
        Some(size) => size,
        None => 0,
    };
    match settings.quota_type {
        None => QuotaCheck::Unlimited,
        Some(QuotaType::NONE) => QuotaCheck::Unlimited,
        Some(QuotaType::FIFO) => QuotaCheck::Evict(size),
        Some(QuotaType::HARD) => QuotaCheck::Limit(size),
    }
}

/// Whether the answer of a hard quota to a write is right.
pub open spec fn hard_quota_answers(
    total_size: u64,
    content_size: u64,
    quota_size: u64,
    r: Result<(), ReductError>,
) -> bool {
    &&& r is Ok <==> total_size + content_size <= quota_size
    &&& r matches Err(e) ==> e@.status == ErrorCode::BadRequest
}

/// Whether a write keeps a hard quota.
pub fn check_hard_quota(name: &str, total_size: u64, content_size: u64, quota_size: u64) -> (r: Result<
    (),
    ReductError,
>)
    requires
        total_size + content_size <= u64::MAX,
    ensures
        r is Ok <==> total_size + content_size <= quota_size,
        r matches Err(e) ==> e@ == (ErrorView {
            status: ErrorCode::BadRequest,
            message: "Quota of '"@ + name@ + "' exceeded"@,
        }),
        hard_quota_answers(total_size, content_size, quota_size, r),
{
    if total_size + content_size > quota_size {
        let message = "Quota of '".to_owned().concat(name).concat("' exceeded");
        Err(ReductError { status: ErrorCode::BadRequest, message })
    } else {
        Ok(())
    }
}

/// The sum of the entries' tracked sizes.
pub fn cached_size(sizes: &Vec<u64>) -> (r: u64)
    requires
        sum_of(sizes@) <= u64::MAX,
    ensures
        r == sum_of(sizes@),
{
    let mut sum: u64 = 0;
    let mut i: usize = 0;
    assert(sizes@.take(0) =~= Seq::<u64>::empty());
    while i < sizes.len()
        invariant
            i <= sizes@.len(),
            sum_of(sizes@) <= u64::MAX,
            sum == sum_of(sizes@.take(i as int)),
        decreases sizes@.len() - i,
    {
        proof {
            lemma_sum_of_take(sizes@, i + 1);
            assert(sizes@.take(i + 1).drop_last() =~= sizes@.take(i as int));
        }
        sum = sum + sizes[i];
        i = i + 1;
    }
    assert(sizes@.take(i as int) =~= sizes@);
    sum
}

/// What the eviction looks at of an entry.
#[derive(Debug, Clone, Copy, PartialEq, Eq)]
pub struct EvictionCandidate {
    pub oldest_record: u64,
    /// Whether blocks of the entry may be removed to make room.
    pub eligible: bool,
}

/// Whether one candidate comes before another: by the oldest record, then by position.
pub open spec fn evicted_before(entries: Seq<EvictionCandidate>, a: int, b: int) -> bool {
    entries[a].oldest_record < entries[b].oldest_record || (entries[a].oldest_record
        == entries[b].oldest_record && a < b)
}

/// Whether `order` lists the eligible entries, each once, those with the oldest records first.
pub open spec fn is_eviction_order(entries: Seq<EvictionCandidate>, order: Seq<usize>) -> bool {
    &&& forall|i: int|
        0 <= i < order.len() ==> (#[trigger] order[i]) < entries.len()
            && entries[order[i] as int].eligible
    &&& forall|k: int|
        0 <= k < entries.len() && (#[trigger] entries[k]).eligible ==> order.contains(k as usize)
    &&& forall|i: int, j: int|
        0 <= i < j < order.len() ==> evicted_before(
            entries,
            (#[trigger] order[i]) as int,
            (#[trigger] order[j]) as int,
        )
}

/// There is one order only in which entries give up their blocks.
pub proof fn law_one_eviction_order(
    entries: Seq<EvictionCandidate>,
    a: Seq<usize>,
    b: Seq<usize>,
)
    requires
        is_eviction_order(entries, a),
        is_eviction_order(entries, b),
        entries.len() <= usize::MAX,
    ensures
        a == b,
{
    assert forall|k: usize| a.contains(k) == b.contains(k) by {
        if a.contains(k) {
            let i = choose|i: int| 0 <= i < a.len() && a[i] == k;
            assert(entries[a[i] as int].eligible);
        }
        if b.contains(k) {
            let i = choose|i: int| 0 <= i < b.len() && b[i] == k;
            assert(entries[b[i] as int].eligible);
        }
    }
    lemma_same_order(entries, a, b);
}

proof fn lemma_same_order(entries: Seq<EvictionCandidate>, a: Seq<usize>, b: Seq<usize>)
    requires
        forall|i: int, j: int|
            0 <= i < j < a.len() ==> evicted_before(
                entries,
                (#[trigger] a[i]) as int,
                (#[trigger] a[j]) as int,
            ),
        forall|i: int, j: int|
            0 <= i < j < b.len() ==> evicted_before(
                entries,
                (#[trigger] b[i]) as int,
                (#[trigger] b[j]) as int,
            ),
        forall|k: usize| a.contains(k) == b.contains(k),
    ensures
        a == b,
    decreases a.len(),
{
    if a.len() == 0 {
        if b.len() > 0 {
            assert(b.contains(b[0]));
            assert(a.contains(b[0]));
        }
        assert(a =~= b);
    } else {
        assert(a.contains(a[0]));
        let j = choose|j: int| 0 <= j < b.len() && b[j] == a[0];
        assert(b.contains(b[0]));
        let i = choose|i: int| 0 <= i < a.len() && a[i] == b[0];
        if j > 0 {
            assert(evicted_before(entries, b[0] as int, b[j] as int));
            if i > 0 {
                assert(evicted_before(entries, a[0] as int, a[i] as int));
            }
        }
        assert(a[0] == b[0]);
        let (a1, b1) = (a.skip(1), b.skip(1));
        assert forall|k: usize| a1.contains(k) == b1.contains(k) by {
            if a1.contains(k) {
                let i = choose|i: int| 0 <= i < a1.len() && a1[i] == k;
                assert(a[i + 1] == k);
                assert(evicted_before(entries, a[0] as int, a[i + 1] as int));
                assert(a.contains(k) && b.contains(k));
                let j = choose|j: int| 0 <= j < b.len() && b[j] == k;
                assert(b1[j - 1] == k);
            }
            if b1.contains(k) {
                let i = choose|i: int| 0 <= i < b1.len() && b1[i] == k;
                assert(b[i + 1] == k);
                assert(evicted_before(entries, b[0] as int, b[i + 1] as int));
                assert(b.contains(k) && a.contains(k));
                let j = choose|j: int| 0 <= j < a.len() && a[j] == k;
                assert(a1[j - 1] == k);
            }
        }
        lemma_same_order(entries, a1, b1);
        assert(a =~= seq![a[0]] + a1);
        assert(b =~= seq![b[0]] + b1);
    }
}

/// The eligible entries, those with the oldest records first.
pub fn eviction_order(entries: &Vec<EvictionCandidate>) -> (r: Vec<usize>)
    ensures
        is_eviction_order(entries@, r@),
{
    let mut order: Vec<usize> = Vec::new();
    let mut i: usize = 0;
    while i < entries.len()
        invariant
            i <= entries@.len(),
            forall|a: int|
                0 <= a < order@.len() ==> (#[trigger] order@[a]) < i
                    && entries@[order@[a] as int].eligible,
            forall|k: int|
                0 <= k < i && (#[trigger] entries@[k]).eligible ==> order@.contains(k as usize),
            forall|a: int, b: int|
                0 <= a < b < order@.len() ==> evicted_before(
                    entries@,
                    (#[trigger] order@[a]) as int,
                    (#[trigger] order@[b]) as int,
                ),
        decreases entries@.len() - i,
    {
        if entries[i].eligible {
            let key: u64 = entries[i].oldest_record;
            let mut j: usize = order.len();
            while j > 0 && entries[order[j - 1]].oldest_record > key
                invariant
                    j <= order@.len(),
                    i < entries@.len(),
                    forall|a: int| 0 <= a < order@.len() ==> (#[trigger] order@[a]) < i,
                    forall|a: int|
                        j <= a < order@.len() ==> entries@[(#[trigger] order@[a]) as int].oldest_record
                            > key,
                decreases j,
            {
                j = j - 1;
            }
            let ghost before = order@;
            order.insert(j, i);
            proof {
                assert(order@[j as int] == i);
                assert forall|k: int|
                    0 <= k < i + 1 && (#[trigger] entries@[k]).eligible implies order@.contains(
                    k as usize,
                ) by {
                    if k < i {
                        let a = choose|a: int| 0 <= a < before.len() && before[a] == k as usize;
                        if a < j {
                            assert(order@[a] == k as usize);
                        } else {
                            assert(order@[a + 1] == k as usize);
                        }
                    }
                }
                assert forall|a: int, b: int| 0 <= a < b < order@.len() implies evicted_before(
                    entries@,
                    (#[trigger] order@[a]) as int,
                    (#[trigger] order@[b]) as int,
                ) by {
                    if a < j && b > j {
                        assert(order@[b] == before[b - 1]);
                    } else if a < j && b == j {
                        assert(order@[a] == before[a]);
                        if j > 0 && a < j - 1 {
                            assert(evicted_before(
                                entries@,
                                before[a] as int,
                                before[j - 1] as int,
                            ));
                        }
                    } else if a == j {
                        assert(order@[b] == before[b - 1]);
                    } else if a > j {
                        assert(order@[a] == before[a - 1]);
                        assert(order@[b] == before[b - 1]);
                    }
                }
            }
        }
        i = i + 1;
    }
    order
}

/// What the eviction has learned.
pub enum EvictionEvent {
    /// The size of the bucket.
    Size(u64),
    /// The entries of the bucket.
    Entries(Vec<EvictionCandidate>),
    /// Whether the oldest block of the entry that was named could be removed.
    Removed(bool),
}

/// What the eviction asks for.
pub enum EvictionAction {
    /// Measure the size of the bucket.
    Measure,
    /// List the entries of the bucket.
    List,
    /// Remove the oldest block of the entry at a position of the list.
    RemoveFrom(usize),
    /// Enough room was made, or it could not be.
    Finish(Result<(), ReductError>),
}

/// Makes room for a record by removing the oldest blocks, one at a time, until the bucket
/// keeps its quota. An entry that cannot give up a block is passed over for the next one.
pub struct Eviction {
    name: String,
    content_size: u64,
    quota_size: u64,
    order: Vec<usize>,
    tried: usize,
}

/// An eviction: its bucket, the sizes it goes by, and the entries still to be tried.
pub struct EvictionView {
    pub name: Seq<char>,
    pub content_size: u64,
    pub quota_size: u64,
    pub queue: Seq<usize>,
}

impl View for Eviction {
    type V = EvictionView;

    closed spec fn view(&self) -> EvictionView {
        EvictionView {
            name: self.name@,
            content_size: self.content_size,
            quota_size: self.quota_size,
            queue: self.order@.skip(self.tried as int),
        }
    }
}

pub open spec fn quota_failure(name: Seq<char>) -> ErrorView {
    ErrorView {
        status: ErrorCode::InternalServerError,
        message: "Failed to keep quota of '"@ + name + "'"@,
    }
}

/// Whether an action tries the first entry of a queue, or fails where there is none.
pub open spec fn tries_first(
    action: EvictionAction,
    queue: Seq<usize>,
    left: Seq<usize>,
    name: Seq<char>,
) -> bool {
    if queue.len() > 0 {
        action == EvictionAction::RemoveFrom(queue[0]) && left == queue.skip(1)
    } else {
        action matches EvictionAction::Finish(Err(e)) && e@ == quota_failure(name)
    }
}

/// Whether an eviction goes on as what it has learned says.
pub open spec fn goes_on(
    before: EvictionView,
    event: EvictionEvent,
    action: EvictionAction,
    after: EvictionView,
) -> bool {
    &&& after == (EvictionView { queue: after.queue, ..before })
    &&& match event {
        EvictionEvent::Size(size) => {
            &&& after == before
            &&& if size + before.content_size > before.quota_size {
                action == EvictionAction::List
            } else {
                action == EvictionAction::Finish(Ok(()))
            }
        },
        EvictionEvent::Entries(entries) => exists|order: Seq<usize>| #[trigger]
            is_eviction_order(entries@, order) && tries_first(
                action,
                order,
                after.queue,
                before.name,
            ),
        EvictionEvent::Removed(true) => after == before && action == EvictionAction::Measure,
        EvictionEvent::Removed(false) => tries_first(
            action,
            before.queue,
            after.queue,
            before.name,
        ),
    }
}

impl Eviction {
    pub closed spec fn wf(self) -> bool {
        self.tried <= self.order@.len()
    }

    /// Starts with measuring the bucket.
    pub fn new(name: String, content_size: u64, quota_size: u64) -> (r: Eviction)
        ensures
            r.wf(),
            r@ == (EvictionView { name: name@, content_size, quota_size, queue: Seq::empty() }),
    {
        let r = Eviction { name, content_size, quota_size, order: Vec::new(), tried: 0 };
        assert(r@.queue =~= Seq::<usize>::empty());
        r
    }

    fn try_next(&mut self) -> (r: EvictionAction)
        requires
            old(self).wf(),
        ensures
            final(self).wf(),
            final(self)@ == (EvictionView { queue: final(self)@.queue, ..old(self)@ }),
            tries_first(r, old(self)@.queue, final(self)@.queue, old(self)@.name),
    {
        if self.tried < self.order.len() {
            let position: usize = self.order[self.tried];
            let ghost before = self@.queue;
            self.tried = self.tried + 1;
            assert(self@.queue =~= before.skip(1));
            EvictionAction::RemoveFrom(position)
        } else {
            let message = "Failed to keep quota of '".to_owned().concat(
                self.name.as_str(),
            ).concat("'");
            EvictionAction::Finish(
                Err(ReductError { status: ErrorCode::InternalServerError, message }),
            )
        }
    }

    /// What comes next.
    pub fn step(&mut self, event: EvictionEvent) -> (r: EvictionAction)
        requires
            old(self).wf(),
            event matches EvictionEvent::Size(size) ==> size + old(self)@.content_size <= u64::MAX,
        ensures
            final(self).wf(),
            final(self)@ == (EvictionView { queue: final(self)@.queue, ..old(self)@ }),
            match event {
                EvictionEvent::Size(size) => {
                    &&& final(self)@ == old(self)@
                    &&& if size + old(self)@.content_size > old(self)@.quota_size {
                        r == EvictionAction::List
                    } else {
                        r == EvictionAction::Finish(Ok(()))
                    }
                },
                EvictionEvent::Entries(entries) => exists|order: Seq<usize>| #[trigger]
                    is_eviction_order(entries@, order) && tries_first(
                        r,
                        order,
                        final(self)@.queue,
                        old(self)@.name,
                    ),
                EvictionEvent::Removed(true) => final(self)@ == old(self)@ && r
                    == EvictionAction::Measure,
                EvictionEvent::Removed(false) => tries_first(
                    r,
                    old(self)@.queue,
                    final(self)@.queue,
                    old(self)@.name,
                ),
            },
            goes_on(old(self)@, event, r, final(self)@),
    {
        match event {
            EvictionEvent::Size(size) => {
                if size + self.content_size > self.quota_size {
                    EvictionAction::List
                } else {
                    EvictionAction::Finish(Ok(()))
                }
            },
            EvictionEvent::Entries(entries) => {
                self.order = eviction_order(&entries);
                self.tried = 0;
                assert(self@.queue =~= self.order@);
                let ghost order = self.order@;
                let r = self.try_next();
                assert(is_eviction_order(entries@, order));
                r
            },
            EvictionEvent::Removed(removed) => {
                if removed {
                    EvictionAction::Measure
                } else {
                    self.try_next()
                }
            },
        }
    }
}
/// A sample of the free space is used again for the length of the interval and no longer. There is
/// nothing to use again before the first sample, nor where the interval is zero.
pub proof fn law_sample_is_used_for_an_interval(sampled_at: u64, available: u64, now: u64, interval: u64)
    ensures
        ({
            let cache = FreeSpaceCache { sampled_at_ms: sampled_at, available };
            &&& sampled_at < u64::MAX ==> (cache.fresh(now, interval) <==> interval > 0 && now
                < sampled_at + interval)
            &&& sampled_at == u64::MAX ==> !cache.fresh(now, interval)
            &&& interval == 0 ==> !cache.fresh(now, interval)
        }),
{
}

/// An interval is counted in whole milliseconds.
pub proof fn law_interval_in_milliseconds(interval_ns: u128)
    requires
        interval_ns < 1_000_000 * 0x1_0000_0000_0000_0000,
    ensures
        interval_ms(interval_ns) * 1_000_000 <= interval_ns < (interval_ms(interval_ns) + 1)
            * 1_000_000,
{
}

/// A write gets room only if the free space that is known holds it: a sample of this moment, or
/// one that is younger than the interval. It is refused only for want of space, with the status
/// that says so, or with the error of a sample that failed; that error leaves the cache as it was.
/// A sample that was taken is the one that is used next, for the length of the interval.
pub proof fn law_writes_get_room_only_if_there_is(
    before: FreeSpaceCache,
    now_ms: u64,
    interval_ns: u128,
    content_size: u64,
    sampled: Option<Result<u64, ReductError>>,
    after: FreeSpaceCache,
    r: Result<(), ReductError>,
)
    requires
        room_checked(before, now_ms, interval_ns, content_size, sampled, after, r),
    ensures
        interval_ns == 0 ==> sampled is Some && after == before,
        sampled is None ==> {
            &&& before.sampled_at_ms < u64::MAX
            &&& now_ms < before.sampled_at_ms + interval_ms(interval_ns)
            &&& r is Ok <==> content_size <= before.available
            &&& after == before
        },
        sampled matches Some(Ok(available)) ==> {
            &&& r is Ok <==> content_size <= available
            &&& interval_ns != 0 ==> after.available == available && after.sampled_at_ms == now_ms
        },
        sampled matches Some(Err(e)) ==> r is Err && r->Err_0 == e && after == before,
        r is Err && !(sampled matches Some(Err(_))) ==> r->Err_0@.status
            == ErrorCode::InsufficientStorage,
{
}

/// A bucket without a quota takes everything, whatever size is set; a quota counts with the size
/// that is set, and with nothing where none is.
pub proof fn law_quota_is_what_is_set(settings: BucketSettings, size: u64)
    ensures
        quota_of(settings) == QuotaCheck::Unlimited <==> settings.quota_type is None
            || settings.quota_type == Some(QuotaType::NONE),
        settings.quota_size == Some(size) && settings.quota_type == Some(QuotaType::FIFO)
            ==> quota_of(settings) == QuotaCheck::Evict(size),
        settings.quota_size == Some(size) && settings.quota_type == Some(QuotaType::HARD)
            ==> quota_of(settings) == QuotaCheck::Limit(size),
        settings.quota_size is None && settings.quota_type == Some(QuotaType::FIFO) ==> quota_of(
            settings,
        ) == QuotaCheck::Evict(0),
        settings.quota_size is None && settings.quota_type == Some(QuotaType::HARD) ==> quota_of(
            settings,
        ) == QuotaCheck::Limit(0),
{
}

/// The size of a bucket behind writes of some sizes, each of which is made only if the quota lets
/// it.
pub open spec fn size_behind(writes: Seq<(u64, Result<(), ReductError>)>) -> nat
    decreases writes.len(),
{
    if writes.len() == 0 {
        0
    } else {
        size_behind(writes.drop_last()) + if writes.last().1 is Ok {
            writes.last().0 as nat
        } else {
            0
        }
    }
}

/// Whether every write was answered as the quota says.
pub open spec fn all_answered(
    writes: Seq<(u64, Result<(), ReductError>)>,
    quota_size: u64,
) -> bool
    decreases writes.len(),
{
    writes.len() > 0 ==> {
        &&& all_answered(writes.drop_last(), quota_size)
        &&& hard_quota_answers(
            size_behind(writes.drop_last()) as u64,
            writes.last().0,
            quota_size,
            writes.last().1,
        )
    }
}

/// A bucket with a hard quota never grows beyond it, and a write that would fit is never refused.
pub proof fn law_hard_quota_is_kept(
    writes: Seq<(u64, Result<(), ReductError>)>,
    quota_size: u64,
)
    requires
        all_answered(writes, quota_size),
    ensures
        size_behind(writes) <= quota_size,
        writes.len() > 0 && writes.last().1 is Err ==> size_behind(writes) + writes.last().0
            > quota_size,
    decreases writes.len(),
{
    if writes.len() > 0 {
        law_hard_quota_is_kept(writes.drop_last(), quota_size);
    }
}

/// An eviction ends well exactly where the bucket, as it was measured, has room for the record
/// within its quota; else it looks at the entries.
pub proof fn law_eviction_ends_when_there_is_room(
    before: EvictionView,
    size: u64,
    action: EvictionAction,
    after: EvictionView,
)
    requires
        goes_on(before, EvictionEvent::Size(size), action, after),
    ensures
        action == EvictionAction::Finish(Ok(())) <==> size + before.content_size
            <= before.quota_size,
        action == EvictionAction::List <==> size + before.content_size > before.quota_size,
{
}

/// Of the entries of a bucket, the eligible one with the oldest record gives up a block; of entries
/// that are as old, the first. Where none is eligible, the eviction fails.
pub proof fn law_oldest_entry_gives_up_a_block(
    before: EvictionView,
    entries: Vec<EvictionCandidate>,
    action: EvictionAction,
    after: EvictionView,
    k: int,
)
    requires
        goes_on(before, EvictionEvent::Entries(entries), action, after),
        entries@.len() <= usize::MAX,
    ensures
        match action {
            EvictionAction::RemoveFrom(position) => {
                &&& position < entries@.len()
                &&& entries@[position as int].eligible
                &&& 0 <= k < entries@.len() && entries@[k].eligible ==> entries@[position as int].oldest_record
                    < entries@[k].oldest_record || (entries@[position as int].oldest_record
                    == entries@[k].oldest_record && position <= k)
            },
            EvictionAction::Finish(Err(e)) => {
                &&& e@.status == ErrorCode::InternalServerError
                &&& 0 <= k < entries@.len() ==> !entries@[k].eligible
            },
            _ => false,
        },
{
    let order = choose|order: Seq<usize>| #[trigger]
        is_eviction_order(entries@, order) && tries_first(action, order, after.queue, before.name);
    if order.len() > 0 {
        assert(entries@[order[0] as int].eligible);
    }
    if 0 <= k < entries@.len() && entries@[k].eligible {
        assert(order.contains(k as usize));
        let i = choose|i: int| 0 <= i < order.len() && order[i] == k as usize;
        if i > 0 {
            assert(evicted_before(entries@, order[0] as int, order[i] as int));
        }
    }
}

/// An entry that cannot give up a block is passed over for the next oldest, until a block is
/// removed or none is left: the entries are tried by the age of their oldest records, each once,
/// and behind every removal the bucket is measured anew.
pub proof fn law_entries_are_tried_by_age(
    entries: Seq<EvictionCandidate>,
    order: Seq<usize>,
    i: int,
    j: int,
    before: EvictionView,
    removed: bool,
    action: EvictionAction,
    after: EvictionView,
)
    requires
        is_eviction_order(entries, order),
        0 <= i < j < order.len(),
        0 < i,
        before.queue == order.skip(i),
        goes_on(before, EvictionEvent::Removed(removed), action, after),
    ensures
        entries[order[i] as int].oldest_record <= entries[order[j] as int].oldest_record,
        order[i] != order[j],
        removed ==> action == EvictionAction::Measure,
        !removed ==> action == EvictionAction::RemoveFrom(order[i]) && after.queue == order.skip(
            i + 1,
        ),
{
    assert(evicted_before(entries, order[i] as int, order[j] as int));
    assert(before.queue.skip(1) =~= order.skip(i + 1));
}

/// Where all entries were passed over, the eviction fails.
pub proof fn law_eviction_fails_when_nothing_is_left(
    before: EvictionView,
    action: EvictionAction,
    after: EvictionView,
)
    requires
        before.queue.len() == 0,
        goes_on(before, EvictionEvent::Removed(false), action, after),
    ensures
        action matches EvictionAction::Finish(Err(e)) && e@.status
            == ErrorCode::InternalServerError,
{
}

} // verus!
