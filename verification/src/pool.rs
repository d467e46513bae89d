//! The thread pool that the scheduler's workers run on.

use vstd::prelude::*;

verus! {

/// rayon's thread pool.
#[verifier::external_type_specification]
#[verifier::external_body]
pub struct ExThreadPool(rayon::ThreadPool);

/// rayon's error for a pool that could not be started.
#[verifier::external_type_specification]
#[verifier::external_body]
pub struct ExThreadPoolBuildError(rayon::ThreadPoolBuildError);

/// The least number of threads that a pool sized for the machine has.
pub const MIN_POOL_THREADS: usize = 6;

/// Why no pool was made.
#[derive(Clone, Copy, Debug, PartialEq, Eq, Structural)]
pub enum PoolError {
    /// The threads could not be started.
    Build,
}

/// A pool of worker threads, with the number of threads that it was asked
/// for.
pub struct WorkerPool {
    pub(crate) pool: rayon::ThreadPool,
    threads: usize,
}

/// The number of threads of a pool for a machine with `logical_cores`
/// cores: one for each core, and at least `MIN_POOL_THREADS`.
pub open spec fn spec_pool_threads(logical_cores: usize) -> usize {
    if logical_cores >= MIN_POOL_THREADS {
        logical_cores
    } else {
        MIN_POOL_THREADS
    }
}

/// The number of threads of a pool for a machine with `logical_cores` cores.
pub fn pool_threads(logical_cores: usize) -> (threads: usize)
    ensures
        threads == spec_pool_threads(logical_cores),
{
    if logical_cores >= MIN_POOL_THREADS {
        logical_cores
    } else {
        MIN_POOL_THREADS
    }
}

/// The number of logical cores of this machine.
///
/// Trusted: `num_cpus::get` always returns at least 1. The number itself
/// depends on the machine.
#[verifier::external_body]
fn logical_cores() -> (cores: usize)
    ensures
        cores >= 1,
{
    num_cpus::get()
}

/// Starts a pool of `threads` threads.
///
/// Trusted: `rayon::ThreadPoolBuilder::build` returns a pool or an error.
/// Whether the threads can be started depends on the machine, so nothing is
/// said of which it is.
#[verifier::external_body]
fn build_pool(threads: usize) -> (r: Result<rayon::ThreadPool, rayon::ThreadPoolBuildError>) {
    rayon::ThreadPoolBuilder::new().num_threads(threads).build()
}

impl WorkerPool {
    /// The number of threads that the pool was asked for.
    pub closed spec fn spec_threads(&self) -> usize {
        self.threads
    }

    /// The number of threads that the pool was asked for.
    pub fn threads(&self) -> (threads: usize)
        ensures
            threads == self.spec_threads(),
    {
        self.threads
    }

    /// A pool of `threads` threads; with 0 the number is left to rayon.
    pub fn with_threads(threads: usize) -> (r: Result<WorkerPool, PoolError>)
        ensures
            r matches Ok(pool) ==> pool.spec_threads() == threads,
    {
        // Whether the threads start is the machine's to decide: what becomes
        // of either outcome is `from_built`'s to say.
        let built = build_pool(threads);
        WorkerPool::from_built(built, threads)
    }

    /// A pool sized for this machine: one thread for each logical core, and
    /// at least `MIN_POOL_THREADS`.
    pub fn for_machine() -> (r: Result<WorkerPool, PoolError>)
        ensures
            r matches Ok(pool) ==> pool.spec_threads() >= MIN_POOL_THREADS,
    {
        WorkerPool::for_cores(logical_cores())
    }

    /// rayon's pool that the workers run on.
    pub closed spec fn spec_pool(&self) -> rayon::ThreadPool {
        self.pool
    }

    /// What becomes of an attempt to start `threads` threads: the pool that
    /// was started, with the number of threads that it was asked for, or the
    /// error that none was.
    pub fn from_built(
        built: Result<rayon::ThreadPool, rayon::ThreadPoolBuildError>,
        threads: usize,
    ) -> (r: Result<WorkerPool, PoolError>)
        ensures
            r is Ok <==> built is Ok,
            r matches Ok(pool) ==> pool.spec_threads() == threads && built == Ok::<
                rayon::ThreadPool,
                rayon::ThreadPoolBuildError,
            >(pool.spec_pool()),
            r matches Err(error) ==> error == PoolError::Build,
    {
        match built {
            Ok(pool) => Ok(WorkerPool { pool, threads }),
            Err(_) => Err(PoolError::Build),
        }
    }

    /// A pool for a machine with `logical_cores` cores: one thread for each
    /// core, and at least `MIN_POOL_THREADS`.
    pub fn for_cores(logical_cores: usize) -> (r: Result<WorkerPool, PoolError>)
        ensures
            r matches Ok(pool) ==> pool.spec_threads() == spec_pool_threads(logical_cores),
    {
        WorkerPool::with_threads(pool_threads(logical_cores))
    }
}

} // verus!
