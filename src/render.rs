use vstd::prelude::*;

verus! {

/// Why a render request is refused before any work starts.
#[derive(Debug, PartialEq, Eq, Structural, Clone, Copy)]
pub enum RenderError {
    ZeroWidth,
    ZeroHeight,
    ZeroSamples,
    ZeroDepth,
    ZeroWorkers,
}

/// The error that a request with these parameters gets, in the order in which
/// the parameters are checked.
pub open spec fn render_error_of(
    image_width: u32,
    image_height: u32,
    samples_per_pixel: u32,
    max_depth: u32,
    worker_count: u32,
) -> Option<RenderError> {
    if image_width == 0 {
        Some(RenderError::ZeroWidth)
    } else if image_height == 0 {
        Some(RenderError::ZeroHeight)
    } else if samples_per_pixel == 0 {
        Some(RenderError::ZeroSamples)
    } else if max_depth == 0 {
        Some(RenderError::ZeroDepth)
    } else if worker_count == 0 {
        Some(RenderError::ZeroWorkers)
    } else {
        None
    }
}

/// Checks the preconditions of a render: every size and count must be positive.
pub fn check_render_params(
    image_width: u32,
    image_height: u32,
    samples_per_pixel: u32,
    max_depth: u32,
    worker_count: u32,
) -> (r: Result<(), RenderError>)
    ensures
        r is Ok <==> (image_width > 0 && image_height > 0 && samples_per_pixel > 0 && max_depth > 0
            && worker_count > 0),
        r matches Err(e) ==> render_error_of(image_width, image_height, samples_per_pixel, max_depth, worker_count) == Some(e),
{
    if image_width == 0 {
        Err(RenderError::ZeroWidth)
    } else if image_height == 0 {
        Err(RenderError::ZeroHeight)
    } else if samples_per_pixel == 0 {
        Err(RenderError::ZeroSamples)
    } else if max_depth == 0 {
        Err(RenderError::ZeroDepth)
    } else if worker_count == 0 {
        Err(RenderError::ZeroWorkers)
    } else {
        Ok(())
    }
}

/// Samples per pixel that worker `index` of `workers` renders: the first
/// `total % workers` workers take one sample more than the others.
pub open spec fn worker_share(total: nat, workers: nat, index: nat) -> nat
    recommends
        workers > 0,
{
    if index < total % workers {
        total / workers + 1
    } else {
        total / workers
    }
}

/// Sum of the shares of the first `n` workers.
pub open spec fn shares_sum(total: nat, workers: nat, n: nat) -> nat
    decreases n,
{
    if n == 0 {
        0
    } else {
        shares_sum(total, workers, (n - 1) as nat) + worker_share(total, workers, (n - 1) as nat)
    }
}

/// Number of samples per pixel assigned to worker `index`.
pub fn samples_for_worker(total: u32, workers: u32, index: u32) -> (r: u32)
    requires
        workers > 0,
        index < workers,
    ensures
        r as nat == worker_share(total as nat, workers as nat, index as nat),
{
    let base = total / workers;
    let remainder = total % workers;
    if index < remainder {
        assert(base < total) by (nonlinear_arith)
            requires
                base == total / workers,
                remainder == total % workers,
                index < remainder,
                workers > 0,
        ;
        base + 1
    } else {
        base
    }
}

proof fn lemma_shares_sum_prefix(total: nat, workers: nat, n: nat)
    requires
        workers > 0,
        n <= workers,
    ensures
        shares_sum(total, workers, n) == n * (total / workers) + if n < total % workers {
            n
        } else {
            total % workers
        },
    decreases n,
{
    if n > 0 {
        lemma_shares_sum_prefix(total, workers, (n - 1) as nat);
        let q = total / workers;
        let r = total % workers;
        let m = (n - 1) as nat;
        assert(n * q == m * q + q) by (nonlinear_arith)
            requires
                m + 1 == n,
        ;
        assert(shares_sum(total, workers, n) == shares_sum(total, workers, m) + worker_share(total, workers, m));
        if m < r {
            assert(worker_share(total, workers, m) == q + 1);
        } else {
            assert(worker_share(total, workers, m) == q);
        }
    } else {
        assert(n * (total / workers) == 0) by (nonlinear_arith)
            requires
                n == 0,
        ;
    }
}

/// The shares of all workers add up to the requested total, for every total
/// and every positive number of workers.
pub proof fn lemma_shares_add_up(total: nat, workers: nat)
    requires
        workers > 0,
    ensures
        shares_sum(total, workers, workers) == total,
{
    lemma_shares_sum_prefix(total, workers, workers);
    assert(total % workers < workers) by (nonlinear_arith)
        requires
            workers > 0,
    ;
    assert(workers * (total / workers) + total % workers == total) by (nonlinear_arith)
        requires
            workers > 0,
    ;
}

/// The samples per pixel of each worker, in worker order.
pub fn split_samples(total: u32, workers: u32) -> (r: Vec<u32>)
    requires
        workers > 0,
    ensures
        r@.len() == workers,
        forall|i: int| 0 <= i < workers ==> r@[i] as nat == worker_share(total as nat, workers as nat, i as nat),
        shares_sum(total as nat, workers as nat, workers as nat) == total,
{
    let mut r: Vec<u32> = Vec::new();
    let mut i: u32 = 0;
    while i < workers
        invariant
            i <= workers,
            workers > 0,
            r@.len() == i,
            forall|k: int| 0 <= k < i ==> r@[k] as nat == worker_share(total as nat, workers as nat, k as nat),
        decreases workers - i,
    {
        let s = samples_for_worker(total, workers, i);
        r.push(s);
        i = i + 1;
    }
    proof {
        lemma_shares_add_up(total as nat, workers as nat);
    }
    r
}

/// Position in the row-major pixel buffer of pixel `(x, y)`.
pub fn pixel_index(image_width: u32, x: u32, y: u32) -> (r: usize)
    requires
        x < image_width,
        (y as int + 1) * image_width as int <= usize::MAX,
    ensures
        r == y as int * image_width as int + x as int,
{
    assert((y as int * image_width as int + x as int) < (y as int + 1) * image_width as int) by (nonlinear_arith)
        requires
            x < image_width,
    ;
    y as usize * image_width as usize + x as usize
}

/// Image row, counted from the top, on which buffer row `y` is written: the
/// buffer holds its rows from the bottom of the picture up.
pub fn image_row(image_height: u32, y: u32) -> (r: u32)
    requires
        y < image_height,
    ensures
        r == image_height - 1 - y,
{
    image_height - y - 1
}

} // verus!
