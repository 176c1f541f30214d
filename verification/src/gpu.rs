//! Artwork effects on the graphics device: the glass effect, which needs an
//! initialized device and queue, and the extraction of dominant colours
//! from RGBA pixel data.

use vstd::prelude::*;

verus! {

/// Why an artwork effect could not run.
#[derive(Clone, Copy, Debug, PartialEq, Eq, Structural)]
pub enum GpuError {
    /// No graphics device was initialized.
    DeviceNotInitialized,
    /// No command queue was initialized.
    QueueNotInitialized,
}

/// The artwork engine as its effects see it: whether a graphics device and
/// a command queue were obtained when it was set up.
pub struct GpuArtworkEngine {
    pub has_device: bool,
    pub has_queue: bool,
}

impl GpuArtworkEngine {
    /// The engine used when the graphics device could not be initialized:
    /// it has neither device nor queue.
    pub fn default_for_fallback() -> (e: GpuArtworkEngine)
        ensures
            !e.has_device,
            !e.has_queue,
    {
        GpuArtworkEngine { has_device: false, has_queue: false }
    }

    /// Applies the glass effect to `image_data` (`width` × `height` pixels).
    /// The effect's pipeline is not yet built, so the pixels come back as
    /// they were; without a device or a queue the effect fails.
    pub fn apply_glass_effect(&self, image_data: &[u8], width: u32, height: u32) -> (r: Result<
        Vec<u8>,
        GpuError,
    >)
        ensures
            !self.has_device ==> r == Err::<Vec<u8>, GpuError>(GpuError::DeviceNotInitialized),
            self.has_device && !self.has_queue ==> r == Err::<Vec<u8>, GpuError>(
                GpuError::QueueNotInitialized,
            ),
            self.has_device && self.has_queue ==> r is Ok && r->Ok_0@ == image_data@,
    {
        if !self.has_device {
            return Err(GpuError::DeviceNotInitialized);
        }
        if !self.has_queue {
            return Err(GpuError::QueueNotInitialized);
        }
        Ok(copy_bytes(image_data))
    }
}

fn copy_bytes(data: &[u8]) -> (v: Vec<u8>)
    ensures
        v@ == data@,
{
    let mut v: Vec<u8> = Vec::new();
    let mut i: usize = 0;
    while i < data.len()
        invariant
            i <= data.len(),
            v@ == data@.take(i as int),
        decreases data.len() - i,
    {
        v.push(data[i]);
        assert(v@ =~= data@.take(i + 1));
        i = i + 1;
    }
    assert(data@.take(i as int) =~= data@);
    v
}

/// The number of whole RGBA pixels in `image_data`.
pub open spec fn pixel_count(image_data: Seq<u8>) -> nat {
    image_data.len() / 4
}

/// The sum of channel `channel` (0 red, 1 green, 2 blue) over the first `n`
/// RGBA pixels of `image_data`.
pub open spec fn channel_sum(image_data: Seq<u8>, channel: int, n: nat) -> nat
    decreases n,
{
    if n == 0 {
        0
    } else {
        channel_sum(image_data, channel, (n - 1) as nat) + image_data[4 * (n - 1) + channel] as nat
    }
}

/// The average of channel `channel` over the pixels of `image_data`,
/// rounded down; 0 when it holds no whole pixel.
pub open spec fn channel_average(image_data: Seq<u8>, channel: int) -> u8 {
    if pixel_count(image_data) == 0 {
        0
    } else {
        (channel_sum(image_data, channel, pixel_count(image_data)) / pixel_count(image_data)) as u8
    }
}

/// The average colour of the RGBA pixels `image_data`: each of red, green
/// and blue averaged over the whole pixels and rounded down; black when it
/// holds no whole pixel.
pub open spec fn average_color(image_data: Seq<u8>) -> [u8; 3] {
    [
        channel_average(image_data, 0),
        channel_average(image_data, 1),
        channel_average(image_data, 2),
    ]
}

proof fn lemma_channel_sum_bound(image_data: Seq<u8>, channel: int, n: nat)
    ensures
        channel_sum(image_data, channel, n) <= 255 * n,
    decreases n,
{
    if n > 0 {
        lemma_channel_sum_bound(image_data, channel, (n - 1) as nat);
    }
}

proof fn lemma_average_fits(sum: nat, n: nat)
    requires
        n > 0,
        sum <= 255 * n,
    ensures
        sum / n <= 255,
{
    assert(sum / n <= 255) by (nonlinear_arith)
        requires
            n > 0,
            sum <= 255 * n,
    ;
}

/// The average of channel `channel` over the pixels of `image_data`.
fn average_channel(image_data: &[u8], channel: usize) -> (v: u8)
    requires
        channel < 3,
    ensures
        v == channel_average(image_data@, channel as int),
{
    let n: usize = image_data.len() / 4;
    if n == 0 {
        return 0;
    }
    let mut sum: u128 = 0;
    let mut i: usize = 0;
    while i < n
        invariant
            channel < 3,
            n == image_data.len() / 4,
            i <= n,
            sum == channel_sum(image_data@, channel as int, i as nat),
            sum <= 255 * i,
        decreases n - i,
    {
        assert(4 * i + channel < image_data.len()) by (nonlinear_arith)
            requires
                i < n,
                n == image_data.len() / 4,
                channel < 3,
        ;
        sum = sum + image_data[4 * i + channel] as u128;
        i = i + 1;
    }
    proof {
        lemma_channel_sum_bound(image_data@, channel as int, n as nat);
        lemma_average_fits(sum as nat, n as nat);
    }
    (sum / (n as u128)) as u8
}

/// The `k` dominant colours of the RGBA pixels `image_data` (`width` ×
/// `height`). The clustering is not yet built: every one of the `k`
/// colours is the average colour of the pixels.
pub fn extract_dominant_colors_gpu(image_data: &[u8], width: u32, height: u32, k: usize) -> (r:
    Result<Vec<[u8; 3]>, GpuError>)
    ensures
        r is Ok,
        r->Ok_0.len() == k,
        forall|i: int| 0 <= i < k ==> #[trigger] r->Ok_0[i] == average_color(image_data@),
{
    let color: [u8; 3] = [
        average_channel(image_data, 0),
        average_channel(image_data, 1),
        average_channel(image_data, 2),
    ];
    assert(color =~= average_color(image_data@));
    let mut colors: Vec<[u8; 3]> = Vec::new();
    let mut i: usize = 0;
    while i < k
        invariant
            i <= k,
            colors.len() == i,
            color == average_color(image_data@),
            forall|j: int| 0 <= j < i ==> #[trigger] colors[j] == color,
        decreases k - i,
    {
        colors.push(color);
        i = i + 1;
    }
    Ok(colors)
}

} // verus!
