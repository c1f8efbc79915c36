//! Depth-to-RGB registration and raw-to-millimetre conversion over the
//! registration lookup tables, and the fixed-point registration polynomial
//! that the tables are built from.

use vstd::prelude::*;

use crate::cameras::{packed_field, unpack_8_pixels, lemma_packed_field_shift, bytes_needed, trunc_div};
use crate::codec::{le16, u16_from_le};

verus! {

pub const REG_X_VAL_SCALE: i32 = 256i32;

/// The largest metric depth (exclusive), in millimetres.
pub const DEPTH_MAX_METRIC_VALUE: usize = 10000usize;

/// Metric depth meaning "no value".
pub const DEPTH_NO_MM_VALUE: u16 = 0u16;

/// Number of raw depth values.
pub const DEPTH_MAX_RAW_VALUE: usize = 2048usize;

/// Raw depth value meaning "no value".
pub const DEPTH_NO_RAW_VALUE: u16 = 2047u16;

pub const DEPTH_X_RES: usize = 640usize;

pub const DEPTH_Y_RES: usize = 480usize;

/// Number of pixels of a depth frame.
pub const DEPTH_PIXELS: usize = 307200usize;

/// Size of a frame of packed 11-bit depth.
pub const DEPTH_PACKED_BYTES: usize = 422400usize;

/// Internal Kinect registration parameters.
#[derive(Debug, Clone, Copy)]
pub struct RegInfo {
    pub dx_center: i32,
    pub ax: i32,
    pub bx: i32,
    pub cx: i32,
    pub dx: i32,
    pub dx_start: i32,
    pub ay: i32,
    pub by: i32,
    pub cy: i32,
    pub dy: i32,
    pub dy_start: i32,
    pub dx_beta_start: i32,
    pub dy_beta_start: i32,
    pub rollout_blank: i32,
    pub rollout_size: i32,
    pub dx_beta_inc: i32,
    pub dy_beta_inc: i32,
    pub dxdx_start: i32,
    pub dxdy_start: i32,
    pub dydx_start: i32,
    pub dydy_start: i32,
    pub dxdxdx_start: i32,
    pub dydxdx_start: i32,
    pub dxdxdy_start: i32,
    pub dydxdy_start: i32,
    pub back_comp1: i32,
    pub dydydx_start: i32,
    pub back_comp2: i32,
    pub dydydy_start: i32,
}

/// Registration padding info.
#[derive(Debug, Clone, Copy)]
pub struct RegPadInfo {
    pub start_lines: u16,
    pub end_lines: u16,
    pub cropping_lines: u16,
}

/// The lookup tables of depth-to-RGB registration.
pub struct Registration {
    pub reg_info: RegInfo,
    pub reg_pad_info: RegPadInfo,
    /// Metric depth of each raw value; `DEPTH_MAX_RAW_VALUE` entries.
    pub raw_to_mm_shift: Vec<u16>,
    /// Horizontal shift of each metric depth, in 1/256 pixel;
    /// `DEPTH_MAX_METRIC_VALUE` entries.
    pub depth_to_rgb_shift: Vec<i32>,
    /// Registered position of each depth pixel: column in 1/256 pixel, row;
    /// `DEPTH_PIXELS` entries.
    pub registration_table: Vec<[i32; 2]>,
}

/// A metric depth limited to `DEPTH_MAX_METRIC_VALUE`.
pub open spec fn clamp_metric(m: int) -> int {
    if m < DEPTH_MAX_METRIC_VALUE {
        m
    } else {
        DEPTH_MAX_METRIC_VALUE as int
    }
}

/// The raw depth of source pixel `k`: a little-endian 16-bit word of an
/// unpacked frame, or an 11-bit sample of a packed one.
pub open spec fn source_raw(input: Seq<u8>, unpacked: bool, k: int) -> int {
    if unpacked {
        le16(input[2 * k], input[2 * k + 1])
    } else {
        packed_field(input, 11, k as nat) as int
    }
}

/// The smaller of two depths, where 0 means "none".
pub open spec fn min_depth(cur: int, m: int) -> int {
    if cur == 0 || cur > m {
        m
    } else {
        cur
    }
}

impl Registration {
    /// The tables have their sizes.
    pub open spec fn wf(&self) -> bool {
        &&& self.raw_to_mm_shift@.len() == DEPTH_MAX_RAW_VALUE
        &&& self.depth_to_rgb_shift@.len() == DEPTH_MAX_METRIC_VALUE
        &&& self.registration_table@.len() == DEPTH_PIXELS
    }

    /// Builds the registration from its tables, marking the raw value that
    /// means "no value" as no metric depth. `None` where a table does not
    /// have its size.
    pub fn from_tables(
        reg_info: RegInfo,
        reg_pad_info: RegPadInfo,
        raw_to_mm_shift: Vec<u16>,
        depth_to_rgb_shift: Vec<i32>,
        registration_table: Vec<[i32; 2]>,
    ) -> (r: Option<Registration>)
        ensures
            r is Some <==> (raw_to_mm_shift@.len() == DEPTH_MAX_RAW_VALUE
                && depth_to_rgb_shift@.len() == DEPTH_MAX_METRIC_VALUE
                && registration_table@.len() == DEPTH_PIXELS),
            r matches Some(reg) ==> {
                &&& reg.wf()
                &&& reg.reg_info == reg_info
                &&& reg.reg_pad_info == reg_pad_info
                &&& reg.raw_to_mm_shift@ == raw_to_mm_shift@.update(
                    DEPTH_NO_RAW_VALUE as int,
                    DEPTH_NO_MM_VALUE,
                )
                &&& reg.depth_to_rgb_shift@ == depth_to_rgb_shift@
                &&& reg.registration_table@ == registration_table@
            },
    {
        if raw_to_mm_shift.len() != DEPTH_MAX_RAW_VALUE || depth_to_rgb_shift.len()
            != DEPTH_MAX_METRIC_VALUE || registration_table.len() != DEPTH_PIXELS {
            return None;
        }
        let mut raw_to_mm_shift = raw_to_mm_shift;
        raw_to_mm_shift.set(DEPTH_NO_RAW_VALUE as usize, DEPTH_NO_MM_VALUE);
        Some(
            Registration {
                reg_info,
                reg_pad_info,
                raw_to_mm_shift,
                depth_to_rgb_shift,
                registration_table,
            },
        )
    }

    /// The metric depth of source pixel `k`.
    pub open spec fn source_metric(&self, input: Seq<u8>, unpacked: bool, k: int) -> int {
        self.raw_to_mm_shift@[source_raw(input, unpacked, k)] as int
    }

    /// The registered column of pixel `k` at metric depth `m`, in 1/256
    /// pixel.
    pub open spec fn shifted_x(&self, k: int, m: int) -> int {
        self.registration_table@[k][0] as int + self.depth_to_rgb_shift@[m] as int
    }

    /// The first output row: `start_lines` times the frame height.
    pub open spec fn target_offset(&self) -> int {
        DEPTH_Y_RES * self.reg_pad_info.start_lines
    }

    /// The output pixel that source pixel `k` lands on, with its metric depth,
    /// if it has a depth and lands inside the output.
    pub open spec fn reg_target(&self, input: Seq<u8>, unpacked: bool, k: int) -> Option<(int, int)> {
        let m = self.source_metric(input, unpacked, k);
        if m == 0 || m >= DEPTH_MAX_METRIC_VALUE {
            None
        } else {
            let nx = trunc_div(self.shifted_x(k, m), 256);
            if nx < 0 || nx >= DEPTH_X_RES {
                None
            } else {
                let raw_target = self.registration_table@[k][1] * DEPTH_X_RES + nx;
                if raw_target < self.target_offset() {
                    None
                } else if raw_target - self.target_offset() >= DEPTH_PIXELS {
                    None
                } else {
                    Some((raw_target - self.target_offset(), m))
                }
            }
        }
    }

    /// Registering source pixel `k` stays within the integer types: its raw
    /// value indexes the raw table, the shifted column fits in `i32`, and a
    /// pixel that lands in a valid column has a row that is not negative and
    /// whose position fits in `usize`.
    pub open spec fn reg_fits_at(&self, input: Seq<u8>, unpacked: bool, k: int) -> bool {
        &&& 0 <= source_raw(input, unpacked, k) < DEPTH_MAX_RAW_VALUE
        &&& ({
            let m = self.source_metric(input, unpacked, k);
            m == 0 || m >= DEPTH_MAX_METRIC_VALUE || ({
                let sx = self.shifted_x(k, m);
                let nx = trunc_div(sx, 256);
                &&& i32::MIN <= sx <= i32::MAX
                &&& (nx < 0 || nx >= DEPTH_X_RES || (self.registration_table@[k][1] >= 0
                    && self.registration_table@[k][1] * DEPTH_X_RES + nx <= usize::MAX))
            })
        })
    }

    /// The depth of output pixel `t` after the first `n` source pixels: the
    /// smallest metric depth of those that land on it, or 0 where none does.
    pub open spec fn reg_min(&self, input: Seq<u8>, unpacked: bool, n: nat, t: int) -> int
        decreases n,
    {
        if n == 0 {
            0
        } else {
            let prev = self.reg_min(input, unpacked, (n - 1) as nat, t);
            match self.reg_target(input, unpacked, n - 1) {
                Some((tt, m)) => if tt == t {
                    min_depth(prev, m)
                } else {
                    prev
                },
                None => prev,
            }
        }
    }

    /// The input holds a whole frame: two bytes per pixel unpacked, or 11
    /// bytes per 8 pixels packed.
    pub open spec fn input_holds_frame(input: Seq<u8>, unpacked: bool) -> bool {
        if unpacked {
            input.len() >= 2 * DEPTH_PIXELS
        } else {
            input.len() >= DEPTH_PACKED_BYTES
        }
    }

    /// The raw depth of source pixel `k`, read from the input.
    fn read_source(
        input: &[u8],
        unpacked: bool,
        k: usize,
        unpack: &[u16; 8],
    ) -> (r: u16)
        requires
            k < DEPTH_PIXELS,
            Self::input_holds_frame(input@, unpacked),
            !unpacked ==> unpack@[(k % 8) as int] == packed_field(input@, 11, k as nat),
        ensures
            r == source_raw(input@, unpacked, k as int),
    {
        if unpacked {
            u16_from_le(input[2 * k], input[2 * k + 1])
        } else {
            unpack[k % 8]
        }
    }

    /// Loads the packed samples of block `b` (source pixels `8b .. 8b+8`).
    fn load_block(input: &[u8], b: usize, unpack: &mut [u16; 8])
        requires
            b < DEPTH_PIXELS / 8,
            input@.len() >= DEPTH_PACKED_BYTES,
        ensures
            forall|j: int|
                0 <= j < 8 ==> #[trigger] final(unpack)@[j] == packed_field(input@, 11, (8 * b + j) as nat),
    {
        let off = 11 * b;
        let chunk = &input[off..input.len()];
        assert(chunk@ =~= input@.skip(off as int));
        unpack_8_pixels(chunk, unpack);
        assert forall|j: int| 0 <= j < 8 implies #[trigger] unpack@[j] == packed_field(
            input@,
            11,
            (8 * b + j) as nat,
        ) by {
            assert(bytes_needed(11, (j + 8 * b + 1) as nat) <= 11 * (b + 1)) by (nonlinear_arith)
                requires
                    0 <= j < 8,
            ;
            lemma_packed_field_shift(input@, 11, j as nat, b as nat);
            assert((j + 8 * b) as nat == (8 * b + j) as nat);
        }
    }

    /// Whether registering `input` stays within the integer types for every
    /// source pixel.
    pub fn registration_fits(&self, input: &[u8], unpacked: bool) -> (r: bool)
        requires
            self.wf(),
            Self::input_holds_frame(input@, unpacked),
        ensures
            r == forall|k: int| 0 <= k < DEPTH_PIXELS ==> #[trigger] self.reg_fits_at(input@, unpacked, k),
    {
        let mut unpack = [0u16; 8];
        let mut k: usize = 0;
        while k < DEPTH_PIXELS
            invariant
                self.wf(),
                Self::input_holds_frame(input@, unpacked),
                k <= DEPTH_PIXELS,
                !unpacked && k % 8 != 0 ==> forall|j: int|
                    0 <= j < 8 ==> #[trigger] unpack@[j] == packed_field(input@, 11, (8 * (k / 8) + j) as nat),
                forall|q: int| 0 <= q < k ==> #[trigger] self.reg_fits_at(input@, unpacked, q),
            decreases DEPTH_PIXELS - k,
        {
            if !unpacked && k % 8 == 0 {
                Self::load_block(input, k / 8, &mut unpack);
            }
            assert(!unpacked ==> unpack@[(k % 8) as int] == packed_field(input@, 11, k as nat)) by {
                if !unpacked {
                    assert(8 * (k / 8) + k % 8 == k);
                }
            }
            let raw = Self::read_source(input, unpacked, k, &unpack);
            if raw as usize >= DEPTH_MAX_RAW_VALUE {
                assert(!self.reg_fits_at(input@, unpacked, k as int));
                return false;
            }
            let m = self.raw_to_mm_shift[raw as usize];
            if m != DEPTH_NO_MM_VALUE && (m as usize) < DEPTH_MAX_METRIC_VALUE {
                let sx = self.registration_table[k][0] as i64 + self.depth_to_rgb_shift[m as usize] as i64;
                if sx < i32::MIN as i64 || sx > i32::MAX as i64 {
                    assert(!self.reg_fits_at(input@, unpacked, k as int));
                    return false;
                }
                let nx = trunc_div_256(sx as i32);
                if nx >= 0 && nx < DEPTH_X_RES as i32 {
                    let ty = self.registration_table[k][1];
                    if ty < 0 {
                        assert(!self.reg_fits_at(input@, unpacked, k as int));
                        return false;
                    }
                    if (ty as usize) > (usize::MAX - nx as usize) / DEPTH_X_RES {
                        assert(ty * DEPTH_X_RES + nx > usize::MAX) by (nonlinear_arith)
                            requires
                                ty > (usize::MAX - nx) / 640,
                                0 <= nx < 640,
                        ;
                        assert(!self.reg_fits_at(input@, unpacked, k as int));
                        return false;
                    }
                    assert(ty * DEPTH_X_RES + nx <= usize::MAX) by (nonlinear_arith)
                        requires
                            ty <= (usize::MAX - nx) / 640,
                            0 <= nx < 640,
                            ty >= 0,
                    ;
                }
            }
            k = k + 1;
        }
        true
    }

    /// Apply registration to a packed or unpacked depth frame: each output
    /// pixel gets the smallest metric depth among the source pixels that land
    /// on it, or `DEPTH_NO_MM_VALUE` where none does.
    ///
    /// * `input` - raw depth data (packed 11-bit or unpacked 16-bit)
    /// * `output_mm` - output buffer of `DEPTH_X_RES * DEPTH_Y_RES` elements
    /// * `unpacked` - true if `input` is already 16-bit per pixel
    pub fn apply_registration(&self, input: &[u8], output_mm: &mut [u16], unpacked: bool)
        requires
            self.wf(),
            old(output_mm)@.len() == DEPTH_PIXELS,
            Self::input_holds_frame(input@, unpacked),
            forall|k: int| 0 <= k < DEPTH_PIXELS ==> #[trigger] self.reg_fits_at(input@, unpacked, k),
        ensures
            final(output_mm)@.len() == DEPTH_PIXELS,
            forall|t: int|
                0 <= t < DEPTH_PIXELS ==> #[trigger] final(output_mm)@[t] == self.reg_min(
                    input@,
                    unpacked,
                    DEPTH_PIXELS as nat,
                    t,
                ),
    {
        let mut i: usize = 0;
        while i < output_mm.len()
            invariant
                output_mm@.len() == DEPTH_PIXELS,
                i <= DEPTH_PIXELS,
                forall|t: int| 0 <= t < i ==> #[trigger] output_mm@[t] == DEPTH_NO_MM_VALUE,
            decreases DEPTH_PIXELS - i,
        {
            output_mm[i] = DEPTH_NO_MM_VALUE;
            i = i + 1;
        }
        let target_offset = DEPTH_Y_RES * self.reg_pad_info.start_lines as usize;
        let mut b: usize = 0;
        while b < DEPTH_PIXELS / 8
            invariant
                self.wf(),
                output_mm@.len() == DEPTH_PIXELS,
                Self::input_holds_frame(input@, unpacked),
                forall|q: int| 0 <= q < DEPTH_PIXELS ==> #[trigger] self.reg_fits_at(input@, unpacked, q),
                target_offset == self.target_offset(),
                b <= DEPTH_PIXELS / 8,
                forall|t: int|
                    0 <= t < DEPTH_PIXELS ==> #[trigger] output_mm@[t] == self.reg_min(
                        input@,
                        unpacked,
                        (8 * b) as nat,
                        t,
                    ),
            decreases DEPTH_PIXELS / 8 - b,
        {
            self.register_block(input, unpacked, b, target_offset, output_mm);
            b = b + 1;
        }
    }

    /// Registers the source pixels of block `b` (`8b .. 8b+8`).
    fn register_block(
        &self,
        input: &[u8],
        unpacked: bool,
        b: usize,
        target_offset: usize,
        output_mm: &mut [u16],
    )
        requires
            self.wf(),
            old(output_mm)@.len() == DEPTH_PIXELS,
            Self::input_holds_frame(input@, unpacked),
            forall|q: int| 0 <= q < DEPTH_PIXELS ==> #[trigger] self.reg_fits_at(input@, unpacked, q),
            target_offset == self.target_offset(),
            b < DEPTH_PIXELS / 8,
            forall|t: int|
                0 <= t < DEPTH_PIXELS ==> #[trigger] old(output_mm)@[t] == self.reg_min(
                    input@,
                    unpacked,
                    (8 * b) as nat,
                    t,
                ),
        ensures
            final(output_mm)@.len() == DEPTH_PIXELS,
            forall|t: int|
                0 <= t < DEPTH_PIXELS ==> #[trigger] final(output_mm)@[t] == self.reg_min(
                    input@,
                    unpacked,
                    (8 * b + 8) as nat,
                    t,
                ),
    {
        let mut unpack = [0u16; 8];
        if !unpacked {
            Self::load_block(input, b, &mut unpack);
        }
        let mut j: usize = 0;
        while j < 8
            invariant
                self.wf(),
                output_mm@.len() == DEPTH_PIXELS,
                Self::input_holds_frame(input@, unpacked),
                forall|q: int| 0 <= q < DEPTH_PIXELS ==> #[trigger] self.reg_fits_at(input@, unpacked, q),
                target_offset == self.target_offset(),
                b < DEPTH_PIXELS / 8,
                j <= 8,
                !unpacked ==> forall|i: int|
                    0 <= i < 8 ==> #[trigger] unpack@[i] == packed_field(input@, 11, (8 * b + i) as nat),
                forall|t: int|
                    0 <= t < DEPTH_PIXELS ==> #[trigger] output_mm@[t] == self.reg_min(
                        input@,
                        unpacked,
                        (8 * b + j) as nat,
                        t,
                    ),
            decreases 8 - j,
        {
            let k = 8 * b + j;
            assert(k % 8 == j);
            let target = self.register_pixel(input, unpacked, k, &unpack, target_offset);
            self.record_target(input, unpacked, k, target, output_mm);
            j = j + 1;
        }
    }

    /// Records where source pixel `k` lands in the output.
    fn record_target(
        &self,
        input: &[u8],
        unpacked: bool,
        k: usize,
        target: Option<(usize, u16)>,
        output_mm: &mut [u16],
    )
        requires
            k < DEPTH_PIXELS,
            old(output_mm)@.len() == DEPTH_PIXELS,
            match target {
                Some((t, m)) => self.reg_target(input@, unpacked, k as int) == Some((t as int, m as int)),
                None => self.reg_target(input@, unpacked, k as int) is None,
            },
            target matches Some((t, m)) ==> t < DEPTH_PIXELS,
            forall|t: int|
                0 <= t < DEPTH_PIXELS ==> #[trigger] old(output_mm)@[t] == self.reg_min(
                    input@,
                    unpacked,
                    k as nat,
                    t,
                ),
        ensures
            final(output_mm)@.len() == DEPTH_PIXELS,
            forall|t: int|
                0 <= t < DEPTH_PIXELS ==> #[trigger] final(output_mm)@[t] == self.reg_min(
                    input@,
                    unpacked,
                    (k + 1) as nat,
                    t,
                ),
    {
        let ghost before = output_mm@;
        match target {
            Some((t, m)) => {
                let current = output_mm[t];
                if current == DEPTH_NO_MM_VALUE || current > m {
                    output_mm[t] = m;
                }
            },
            None => {},
        }
        assert forall|t: int| 0 <= t < DEPTH_PIXELS implies #[trigger] output_mm@[t] == self.reg_min(
            input@,
            unpacked,
            (k + 1) as nat,
            t,
        ) by {
            assert(before[t] == self.reg_min(input@, unpacked, k as nat, t));
        }
    }

    /// Where source pixel `k` lands, with its metric depth.
    fn register_pixel(
        &self,
        input: &[u8],
        unpacked: bool,
        k: usize,
        unpack: &[u16; 8],
        target_offset: usize,
    ) -> (r: Option<(usize, u16)>)
        requires
            self.wf(),
            k < DEPTH_PIXELS,
            Self::input_holds_frame(input@, unpacked),
            self.reg_fits_at(input@, unpacked, k as int),
            target_offset == self.target_offset(),
            !unpacked ==> unpack@[(k % 8) as int] == packed_field(input@, 11, k as nat),
        ensures
            match r {
                Some((t, m)) => self.reg_target(input@, unpacked, k as int) == Some((t as int, m as int)),
                None => self.reg_target(input@, unpacked, k as int) is None,
            },
    {
        let raw = Self::read_source(input, unpacked, k, unpack);
        let metric_depth = self.raw_to_mm_shift[raw as usize];
        if metric_depth == DEPTH_NO_MM_VALUE {
            return None;
        }
        if metric_depth as usize >= DEPTH_MAX_METRIC_VALUE {
            return None;
        }
        let sx = self.registration_table[k][0] + self.depth_to_rgb_shift[metric_depth as usize];
        let nx = trunc_div_256(sx);
        if nx < 0 || nx >= DEPTH_X_RES as i32 {
            return None;
        }
        let ny = self.registration_table[k][1] as usize;
        let raw_target = ny * DEPTH_X_RES + nx as usize;
        if raw_target < target_offset {
            return None;
        }
        let target_index = raw_target - target_offset;
        if target_index >= DEPTH_PIXELS {
            return None;
        }
        Some((target_index, metric_depth))
    }

    /// Convert packed 11-bit depth to mm (no registration alignment); depths
    /// at or above `DEPTH_MAX_METRIC_VALUE` become `DEPTH_MAX_METRIC_VALUE`.
    pub fn apply_depth_to_mm(&self, input_packed: &[u8], output_mm: &mut [u16])
        requires
            self.wf(),
            old(output_mm)@.len() == DEPTH_PIXELS,
            input_packed@.len() >= DEPTH_PACKED_BYTES,
        ensures
            final(output_mm)@.len() == DEPTH_PIXELS,
            forall|k: int|
                0 <= k < DEPTH_PIXELS ==> #[trigger] final(output_mm)@[k] == clamp_metric(
                    self.raw_to_mm_shift@[packed_field(input_packed@, 11, k as nat) as int] as int,
                ),
    {
        let mut unpack = [0u16; 8];
        let mut k: usize = 0;
        while k < DEPTH_PIXELS
            invariant
                self.wf(),
                output_mm@.len() == DEPTH_PIXELS,
                input_packed@.len() >= DEPTH_PACKED_BYTES,
                k <= DEPTH_PIXELS,
                k % 8 != 0 ==> forall|j: int|
                    0 <= j < 8 ==> #[trigger] unpack@[j] == packed_field(input_packed@, 11, (8 * (k / 8) + j) as nat),
                forall|q: int|
                    0 <= q < k ==> #[trigger] output_mm@[q] == clamp_metric(
                        self.raw_to_mm_shift@[packed_field(input_packed@, 11, q as nat) as int] as int,
                    ),
            decreases DEPTH_PIXELS - k,
        {
            if k % 8 == 0 {
                Self::load_block(input_packed, k / 8, &mut unpack);
            }
            assert(unpack@[(k % 8) as int] == packed_field(input_packed@, 11, k as nat)) by {
                assert(8 * (k / 8) + k % 8 == k);
            }
            let raw = unpack[k % 8];
            proof {
                crate::cameras::lemma_packed11_conversions_agree(input_packed@, k as nat);
            }
            let metric_depth = self.raw_to_mm_shift[raw as usize];
            output_mm[k] = if (metric_depth as usize) < DEPTH_MAX_METRIC_VALUE {
                metric_depth
            } else {
                DEPTH_MAX_METRIC_VALUE as u16
            };
            k = k + 1;
        }
    }

    /// Convert unpacked 16-bit depth to mm (no registration alignment);
    /// depths at or above `DEPTH_MAX_METRIC_VALUE` become
    /// `DEPTH_MAX_METRIC_VALUE`.
    pub fn apply_depth_unpacked_to_mm(&self, input: &[u16], output_mm: &mut [u16])
        requires
            self.wf(),
            old(output_mm)@.len() == DEPTH_PIXELS,
            input@.len() == DEPTH_PIXELS,
            forall|k: int| 0 <= k < DEPTH_PIXELS ==> #[trigger] input@[k] < DEPTH_MAX_RAW_VALUE,
        ensures
            final(output_mm)@.len() == DEPTH_PIXELS,
            forall|k: int|
                0 <= k < DEPTH_PIXELS ==> #[trigger] final(output_mm)@[k] == clamp_metric(
                    self.raw_to_mm_shift@[input@[k] as int] as int,
                ),
    {
        let mut k: usize = 0;
        while k < DEPTH_PIXELS
            invariant
                self.wf(),
                output_mm@.len() == DEPTH_PIXELS,
                input@.len() == DEPTH_PIXELS,
                forall|q: int| 0 <= q < DEPTH_PIXELS ==> #[trigger] input@[q] < DEPTH_MAX_RAW_VALUE,
                k <= DEPTH_PIXELS,
                forall|q: int|
                    0 <= q < k ==> #[trigger] output_mm@[q] == clamp_metric(
                        self.raw_to_mm_shift@[input@[q] as int] as int,
                    ),
            decreases DEPTH_PIXELS - k,
        {
            let metric_depth = self.raw_to_mm_shift[input[k] as usize];
            output_mm[k] = if (metric_depth as usize) < DEPTH_MAX_METRIC_VALUE {
                metric_depth
            } else {
                DEPTH_MAX_METRIC_VALUE as u16
            };
            k = k + 1;
        }
    }
}

impl Registration {
    /// The RGB pixel that depth pixel `i` maps to, if it has a depth and
    /// maps into a valid column.
    pub open spec fn map_target(&self, depth: Seq<u16>, i: int) -> Option<int> {
        let wz = depth[i] as int;
        if wz == 0 {
            None
        } else {
            let cx = trunc_div(self.shifted_x(i, wz), 256);
            if cx < 0 || cx >= DEPTH_X_RES {
                None
            } else {
                Some((self.registration_table@[i][1] - self.target_offset()) * DEPTH_X_RES + cx)
            }
        }
    }

    /// Mapping depth pixel `i` stays within the types and the image: its
    /// depth indexes the shift table, the shifted column fits in `i32`, and
    /// a pixel that maps into a valid column maps inside the image.
    pub open spec fn map_fits_at(&self, depth: Seq<u16>, i: int) -> bool {
        let wz = depth[i] as int;
        wz == 0 || ({
            let sx = self.shifted_x(i, wz);
            let cx = trunc_div(sx, 256);
            &&& wz < DEPTH_MAX_METRIC_VALUE
            &&& i32::MIN <= sx <= i32::MAX
            &&& (cx < 0 || cx >= DEPTH_X_RES || (self.registration_table@[i][1]
                >= self.target_offset() && (self.registration_table@[i][1] - self.target_offset())
                * DEPTH_X_RES + cx < DEPTH_PIXELS))
        })
    }

    /// The nearest depth mapped onto RGB pixel `c` by the first `n` depth
    /// pixels, or 0 where none maps onto it.
    pub open spec fn map_zmin(&self, depth: Seq<u16>, n: nat, c: int) -> int
        decreases n,
    {
        if n == 0 {
            0
        } else {
            let prev = self.map_zmin(depth, (n - 1) as nat, c);
            match self.map_target(depth, n - 1) {
                Some(cc) => if cc == c {
                    min_depth(prev, depth[n - 1] as int)
                } else {
                    prev
                },
                None => prev,
            }
        }
    }

    /// The RGB pixel that depth pixel `i` maps to, or -1.
    fn map_pixel(&self, depth_mm: &[u16], i: usize, target_offset: usize) -> (r: i32)
        requires
            self.wf(),
            i < DEPTH_PIXELS,
            depth_mm@.len() == DEPTH_PIXELS,
            self.map_fits_at(depth_mm@, i as int),
            target_offset == self.target_offset(),
        ensures
            match self.map_target(depth_mm@, i as int) {
                Some(c) => r == c && 0 <= c < DEPTH_PIXELS,
                None => r == -1,
            },
    {
        let wz = depth_mm[i];
        if wz == DEPTH_NO_MM_VALUE {
            return -1;
        }
        let sx = self.registration_table[i][0] + self.depth_to_rgb_shift[wz as usize];
        let cx = trunc_div_256(sx);
        if cx < 0 || cx >= DEPTH_X_RES as i32 {
            return -1;
        }
        let cy = self.registration_table[i][1] as usize - target_offset;
        let cindex = cy * DEPTH_X_RES + cx as usize;
        cindex as i32
    }

    /// Whether mapping `depth_mm` stays within the types and the image for
    /// every depth pixel.
    pub fn map_fits(&self, depth_mm: &[u16]) -> (r: bool)
        requires
            self.wf(),
            depth_mm@.len() == DEPTH_PIXELS,
        ensures
            r == forall|i: int| 0 <= i < DEPTH_PIXELS ==> #[trigger] self.map_fits_at(depth_mm@, i),
    {
        let target_offset = DEPTH_Y_RES * self.reg_pad_info.start_lines as usize;
        let mut i: usize = 0;
        while i < DEPTH_PIXELS
            invariant
                self.wf(),
                depth_mm@.len() == DEPTH_PIXELS,
                target_offset == self.target_offset(),
                i <= DEPTH_PIXELS,
                forall|q: int| 0 <= q < i ==> #[trigger] self.map_fits_at(depth_mm@, q),
            decreases DEPTH_PIXELS - i,
        {
            let wz = depth_mm[i];
            if wz != DEPTH_NO_MM_VALUE {
                if wz as usize >= DEPTH_MAX_METRIC_VALUE {
                    assert(!self.map_fits_at(depth_mm@, i as int));
                    return false;
                }
                let sx = self.registration_table[i][0] as i64 + self.depth_to_rgb_shift[wz as usize] as i64;
                if sx < i32::MIN as i64 || sx > i32::MAX as i64 {
                    assert(!self.map_fits_at(depth_mm@, i as int));
                    return false;
                }
                let cx = trunc_div_256(sx as i32);
                if cx >= 0 && cx < DEPTH_X_RES as i32 {
                    let ty = self.registration_table[i][1] as i64;
                    let rows = ty - target_offset as i64;
                    if rows < 0 || rows >= DEPTH_Y_RES as i64 || rows * 640 + cx as i64 >= DEPTH_PIXELS as i64 {
                        assert(!self.map_fits_at(depth_mm@, i as int)) by {
                            if rows >= DEPTH_Y_RES {
                                assert(rows * 640 + cx >= 307200) by (nonlinear_arith)
                                    requires
                                        rows >= 480,
                                        cx >= 0,
                                ;
                            }
                        }
                        return false;
                    }
                }
            }
            i = i + 1;
        }
        true
    }

    /// Writes output pixel `i`: black where it maps nowhere (`cindex` is
    /// -1), the color of RGB pixel `cindex` where its depth is at most
    /// `zmin`, and nothing otherwise.
    fn write_registered_pixel(
        depth_mm: &[u16],
        rgb_raw: &[u8],
        rgb_registered: &mut [u8],
        i: usize,
        cindex: i32,
        zmin: u16,
    )
        requires
            i < DEPTH_PIXELS,
            depth_mm@.len() == DEPTH_PIXELS,
            rgb_raw@.len() == DEPTH_PIXELS * 3,
            old(rgb_registered)@.len() == DEPTH_PIXELS * 3,
            cindex == -1 || 0 <= cindex < DEPTH_PIXELS,
        ensures
            final(rgb_registered)@.len() == DEPTH_PIXELS * 3,
            forall|j: int|
                0 <= j < 3 ==> #[trigger] final(rgb_registered)@[3 * i + j] == if cindex == -1 {
                    0u8
                } else if depth_mm@[i as int] <= zmin {
                    rgb_raw@[3 * cindex + j]
                } else {
                    old(rgb_registered)@[3 * i + j]
                },
            forall|k: int|
                0 <= k < DEPTH_PIXELS * 3 && (k < 3 * i || k >= 3 * i + 3) ==> #[trigger] final(
                rgb_registered)@[k] == old(rgb_registered)@[k],
    {
        let out_idx = i * 3;
        if cindex == -1 {
            rgb_registered[out_idx] = 0;
            rgb_registered[out_idx + 1] = 0;
            rgb_registered[out_idx + 2] = 0;
        } else {
            let c = cindex as usize;
            if depth_mm[i] <= zmin {
                let cidx = c * 3;
                rgb_registered[out_idx] = rgb_raw[cidx];
                rgb_registered[out_idx + 1] = rgb_raw[cidx + 1];
                rgb_registered[out_idx + 2] = rgb_raw[cidx + 2];
            }
        }
        assert forall|j: int| 0 <= j < 3 implies #[trigger] rgb_registered@[3 * i + j] == if cindex == -1 {
            0u8
        } else if depth_mm@[i as int] <= zmin {
            rgb_raw@[3 * cindex + j]
        } else {
            old(rgb_registered)@[3 * i + j]
        } by {
            assert(j == 0 || j == 1 || j == 2);
        }
    }

    /// Map an RGB image to align with a depth-mm image: each depth pixel
    /// takes the color of the RGB pixel it maps to where it is the nearest
    /// depth mapped there, black where it maps nowhere, and keeps its
    /// previous color otherwise.
    ///
    /// * `depth_mm` - depth frame in mm
    /// * `rgb_raw` - raw RGB image (3 bytes per pixel)
    /// * `rgb_registered` - output aligned RGB image (3 bytes per pixel)
    pub fn map_rgb_to_depth(&self, depth_mm: &[u16], rgb_raw: &[u8], rgb_registered: &mut [u8])
        requires
            self.wf(),
            depth_mm@.len() == DEPTH_PIXELS,
            rgb_raw@.len() == DEPTH_PIXELS * 3,
            old(rgb_registered)@.len() == DEPTH_PIXELS * 3,
            forall|i: int| 0 <= i < DEPTH_PIXELS ==> #[trigger] self.map_fits_at(depth_mm@, i),
        ensures
            final(rgb_registered)@.len() == DEPTH_PIXELS * 3,
            forall|i: int, j: int|
                0 <= i < DEPTH_PIXELS && 0 <= j < 3 ==> #[trigger] final(rgb_registered)@[3 * i + j] == match self.map_target(
                    depth_mm@,
                    i,
                ) {
                    None => 0u8,
                    Some(c) => if depth_mm@[i] <= self.map_zmin(depth_mm@, DEPTH_PIXELS as nat, c) {
                        rgb_raw@[3 * c + j]
                    } else {
                        old(rgb_registered)@[3 * i + j]
                    },
                },
    {
        let target_offset = self.reg_pad_info.start_lines as usize * DEPTH_Y_RES;
        let mut map: Vec<i32> = vec![-1i32; DEPTH_PIXELS];
        let mut z_buffer: Vec<u16> = vec![DEPTH_NO_MM_VALUE; DEPTH_PIXELS];
        let mut i: usize = 0;
        while i < DEPTH_PIXELS
            invariant
                self.wf(),
                depth_mm@.len() == DEPTH_PIXELS,
                forall|q: int| 0 <= q < DEPTH_PIXELS ==> #[trigger] self.map_fits_at(depth_mm@, q),
                target_offset == self.target_offset(),
                i <= DEPTH_PIXELS,
                map@.len() == DEPTH_PIXELS,
                z_buffer@.len() == DEPTH_PIXELS,
                forall|q: int|
                    0 <= q < i ==> #[trigger] map@[q] == match self.map_target(depth_mm@, q) {
                        Some(c) => c,
                        None => -1,
                    },
                forall|q: int| 0 <= q < DEPTH_PIXELS ==> #[trigger] map@[q] == -1 || (0 <= map@[q] < DEPTH_PIXELS),
                forall|c: int|
                    0 <= c < DEPTH_PIXELS ==> #[trigger] z_buffer@[c] == self.map_zmin(depth_mm@, i as nat, c),
            decreases DEPTH_PIXELS - i,
        {
            let cindex = self.map_pixel(depth_mm, i, target_offset);
            map.set(i, cindex);
            let ghost before = z_buffer@;
            if cindex != -1 {
                let c = cindex as usize;
                let wz = depth_mm[i];
                if z_buffer[c] == DEPTH_NO_MM_VALUE || z_buffer[c] > wz {
                    z_buffer.set(c, wz);
                }
            }
            assert forall|c: int| 0 <= c < DEPTH_PIXELS implies #[trigger] z_buffer@[c] == self.map_zmin(
                depth_mm@,
                (i + 1) as nat,
                c,
            ) by {
                assert(before[c] == self.map_zmin(depth_mm@, i as nat, c));
            }
            i = i + 1;
        }
        let ghost orig = rgb_registered@;
        let mut i: usize = 0;
        while i < DEPTH_PIXELS
            invariant
                self.wf(),
                depth_mm@.len() == DEPTH_PIXELS,
                forall|q: int| 0 <= q < DEPTH_PIXELS ==> #[trigger] self.map_fits_at(depth_mm@, q),
                rgb_raw@.len() == DEPTH_PIXELS * 3,
                rgb_registered@.len() == DEPTH_PIXELS * 3,
                orig.len() == DEPTH_PIXELS * 3,
                i <= DEPTH_PIXELS,
                map@.len() == DEPTH_PIXELS,
                z_buffer@.len() == DEPTH_PIXELS,
                forall|q: int|
                    0 <= q < DEPTH_PIXELS ==> #[trigger] map@[q] == match self.map_target(depth_mm@, q) {
                        Some(c) => c,
                        None => -1,
                    },
                forall|q: int| 0 <= q < DEPTH_PIXELS ==> #[trigger] map@[q] == -1 || (0 <= map@[q] < DEPTH_PIXELS),
                forall|c: int|
                    0 <= c < DEPTH_PIXELS ==> #[trigger] z_buffer@[c] == self.map_zmin(depth_mm@, DEPTH_PIXELS as nat, c),
                forall|q: int, j: int|
                    0 <= q < i && 0 <= j < 3 ==> #[trigger] rgb_registered@[3 * q + j] == match self.map_target(
                        depth_mm@,
                        q,
                    ) {
                        None => 0u8,
                        Some(c) => if depth_mm@[q] <= self.map_zmin(depth_mm@, DEPTH_PIXELS as nat, c) {
                            rgb_raw@[3 * c + j]
                        } else {
                            orig[3 * q + j]
                        },
                    },
                forall|k: int| 3 * i <= k < 3 * DEPTH_PIXELS ==> #[trigger] rgb_registered@[k] == orig[k],
            decreases DEPTH_PIXELS - i,
        {
            let cindex = map[i];
            let ghost before = rgb_registered@;
            proof {
                if cindex != -1 {
                    assert(z_buffer@[cindex as int] == self.map_zmin(depth_mm@, DEPTH_PIXELS as nat, cindex as int));
                }
            }
            let zmin = if cindex == -1 {
                0
            } else {
                z_buffer[cindex as usize]
            };
            Self::write_registered_pixel(depth_mm, rgb_raw, rgb_registered, i, cindex, zmin);
            assert forall|q: int, j: int|
                0 <= q < i + 1 && 0 <= j < 3 implies #[trigger] rgb_registered@[3 * q + j] == match self.map_target(
                    depth_mm@,
                    q,
                ) {
                    None => 0u8,
                    Some(c) => if depth_mm@[q] <= self.map_zmin(depth_mm@, DEPTH_PIXELS as nat, c) {
                        rgb_raw@[3 * c + j]
                    } else {
                        orig[3 * q + j]
                    },
                } by {
                if q < i {
                    assert(rgb_registered@[3 * q + j] == before[3 * q + j]);
                } else {
                    assert(q == i);
                    assert(map@[q] == cindex);
                    assert(self.map_fits_at(depth_mm@, q));
                    assert(before[3 * q + j] == orig[3 * q + j]);
                    assert(rgb_registered@[3 * i + j] == if cindex == -1 {
                        0u8
                    } else if depth_mm@[i as int] <= zmin {
                        rgb_raw@[3 * cindex + j]
                    } else {
                        before[3 * i + j]
                    });
                }
            }
            i = i + 1;
        }
    }
}

// ---------------------------------------------------------------------------
// The registration polynomial.
//
// The registration offsets of the depth pixels follow a cubic polynomial,
// evaluated by forward differences in fixed point: the offsets are in units
// of 2^-17 pixel. Each row first advances the row accumulators, then walks
// its columns with column accumulators started from them.
// ---------------------------------------------------------------------------

/// The row accumulators of the registration polynomial.
pub struct RowAcc {
    pub dx0: int,
    pub dy0: int,
    pub dxdx0: int,
    pub dxdy0: int,
    pub dydx0: int,
    pub dydy0: int,
    pub dxdxdx0: int,
    pub dydxdx0: int,
    pub dydxdy0: int,
    pub dxdxdy0: int,
    pub dydydx0: int,
    pub dydydy0: int,
}

/// The column accumulators of the registration polynomial.
pub struct ColAcc {
    pub x0: int,
    pub xd_x0: int,
    pub xd_xd_x0: int,
    pub y0: int,
    pub xd_y0: int,
    pub xd_xd_y0: int,
}

/// The row accumulators before the first row: the start values in fixed
/// point.
pub open spec fn row_start(reg: RegInfo) -> RowAcc {
    RowAcc {
        dx0: reg.dx_start * 512,
        dy0: reg.dy_start * 512,
        dxdx0: reg.dxdx_start * 256,
        dxdy0: reg.dxdy_start * 256,
        dydx0: reg.dydx_start * 256,
        dydy0: reg.dydy_start * 256,
        dxdxdx0: reg.dxdxdx_start * 256,
        dydxdx0: reg.dydxdx_start * 256,
        dydxdy0: reg.dydxdy_start * 256,
        dxdxdy0: reg.dxdxdy_start * 256,
        dydydx0: reg.dydydx_start * 256,
        dydydy0: reg.dydydy_start * 256,
    }
}

/// One row of forward differences (each right shift a floor division).
pub open spec fn row_step(reg: RegInfo, s: RowAcc) -> RowAcc {
    RowAcc {
        dxdxdx0: s.dxdxdx0 + reg.cx,
        dxdx0: s.dxdx0 + s.dydxdx0 / 256,
        dydxdx0: s.dydxdx0 + reg.dx,
        dx0: s.dx0 + s.dydx0 / 64,
        dydx0: s.dydx0 + s.dydydx0 / 256,
        dydydx0: s.dydydx0 + reg.bx,
        dxdxdy0: s.dxdxdy0 + reg.cy,
        dxdy0: s.dxdy0 + s.dydxdy0 / 256,
        dydxdy0: s.dydxdy0 + reg.dy,
        dy0: s.dy0 + s.dydy0 / 64,
        dydy0: s.dydy0 + s.dydydy0 / 256,
        dydydy0: s.dydydy0 + reg.by,
    }
}

/// The row accumulators after `r` rows.
pub open spec fn row_acc(reg: RegInfo, r: nat) -> RowAcc
    decreases r,
{
    if r == 0 {
        row_start(reg)
    } else {
        row_step(reg, row_acc(reg, (r - 1) as nat))
    }
}

/// The column accumulators at the start of a row.
pub open spec fn col_start(s: RowAcc) -> ColAcc {
    ColAcc {
        x0: s.dx0,
        xd_x0: s.dxdx0,
        xd_xd_x0: s.dxdxdx0,
        y0: s.dy0,
        xd_y0: s.dxdy0,
        xd_xd_y0: s.dxdxdy0,
    }
}

/// One column of forward differences.
pub open spec fn col_step(reg: RegInfo, c: ColAcc) -> ColAcc {
    ColAcc {
        x0: c.x0 + c.xd_x0 / 64,
        xd_x0: c.xd_x0 + c.xd_xd_x0 / 256,
        xd_xd_x0: c.xd_xd_x0 + reg.ax,
        y0: c.y0 + c.xd_y0 / 64,
        xd_y0: c.xd_y0 + c.xd_xd_y0 / 256,
        xd_xd_y0: c.xd_xd_y0 + reg.ay,
    }
}

/// The column accumulators at column `c` of row `row`.
pub open spec fn col_acc(reg: RegInfo, row: nat, c: nat) -> ColAcc
    decreases c,
{
    if c == 0 {
        col_start(row_acc(reg, row + 1))
    } else {
        col_step(reg, col_acc(reg, row, (c - 1) as nat))
    }
}

/// `v` is a value of `i64`.
pub open spec fn in_i64(v: int) -> bool {
    i64::MIN <= v <= i64::MAX
}

/// Every row accumulator is a value of `i64`.
pub open spec fn row_in_i64(s: RowAcc) -> bool {
    &&& in_i64(s.dx0)
    &&& in_i64(s.dy0)
    &&& in_i64(s.dxdx0)
    &&& in_i64(s.dxdy0)
    &&& in_i64(s.dydx0)
    &&& in_i64(s.dydy0)
    &&& in_i64(s.dxdxdx0)
    &&& in_i64(s.dydxdx0)
    &&& in_i64(s.dydxdy0)
    &&& in_i64(s.dxdxdy0)
    &&& in_i64(s.dydydx0)
    &&& in_i64(s.dydydy0)
}

/// Every column accumulator is a value of `i64`.
pub open spec fn col_in_i64(c: ColAcc) -> bool {
    &&& in_i64(c.x0)
    &&& in_i64(c.xd_x0)
    &&& in_i64(c.xd_xd_x0)
    &&& in_i64(c.y0)
    &&& in_i64(c.xd_y0)
    &&& in_i64(c.xd_xd_y0)
}

/// Evaluating the polynomial over `resolution_y` rows of `resolution_x`
/// columns keeps every accumulator within `i64`: the row accumulators of
/// each row up to the last, and the column accumulators of each row up to
/// one past its last column.
pub open spec fn dxdy_fits(reg: RegInfo, resolution_x: int, resolution_y: int) -> bool {
    &&& forall|r: nat| r <= resolution_y ==> #[trigger] row_in_i64(row_acc(reg, r))
    &&& forall|row: nat, c: nat|
        row < resolution_y && c <= resolution_x ==> #[trigger] col_in_i64(col_acc(reg, row, c))
}

/// The number of table entries a frame of `resolution_x` by
/// `resolution_y` pixels takes: none where either is not positive.
pub open spec fn table_cells(resolution_x: int, resolution_y: int) -> int {
    if resolution_x > 0 && resolution_y > 0 {
        resolution_x * resolution_y
    } else {
        0
    }
}

/// Arithmetic shift right by 8: floor division by 256.
fn asr8(x: i64) -> (r: i64)
    ensures
        r == x / 256,
{
    assert((x >> 8u64) as int == (x as int) / 256) by (bit_vector);
    x >> 8u64
}

/// Arithmetic shift right by 6: floor division by 64.
fn asr6(x: i64) -> (r: i64)
    ensures
        r == x / 64,
{
    assert((x >> 6u64) as int == (x as int) / 64) by (bit_vector);
    x >> 6u64
}

/// The row accumulators held in an array, in the order `dx0, dy0, dxdx0,
/// dxdy0, dydx0, dydy0, dxdxdx0, dydxdx0, dydxdy0, dxdxdy0, dydydx0,
/// dydydy0`.
pub open spec fn acc_of(a: Seq<i64>) -> RowAcc {
    RowAcc {
        dx0: a[0] as int,
        dy0: a[1] as int,
        dxdx0: a[2] as int,
        dxdy0: a[3] as int,
        dydx0: a[4] as int,
        dydy0: a[5] as int,
        dxdxdx0: a[6] as int,
        dydxdx0: a[7] as int,
        dydxdy0: a[8] as int,
        dxdxdy0: a[9] as int,
        dydydx0: a[10] as int,
        dydydy0: a[11] as int,
    }
}

/// The column accumulators held in an array, in the order `x0, xd_x0,
/// xd_xd_x0, y0, xd_y0, xd_xd_y0`.
pub open spec fn col_of(a: Seq<i64>) -> ColAcc {
    ColAcc {
        x0: a[0] as int,
        xd_x0: a[1] as int,
        xd_xd_x0: a[2] as int,
        y0: a[3] as int,
        xd_y0: a[4] as int,
        xd_xd_y0: a[5] as int,
    }
}

/// The row accumulators before the first row.
fn start_row(reg: &RegInfo) -> (a: [i64; 12])
    ensures
        acc_of(a@) == row_start(*reg),
{
    // Shift each start value up and down as the hardware does; in 64 bits
    // no bit is lost.
    let ds = reg.dx_start as i64;
    let ys = reg.dy_start as i64;
    assert(((ds << 13u64) >> 4u64) == ds * 512) by (bit_vector)
        requires
            -0x8000_0000 <= ds < 0x8000_0000,
    ;
    assert(((ys << 13u64) >> 4u64) == ys * 512) by (bit_vector)
        requires
            -0x8000_0000 <= ys < 0x8000_0000,
    ;
    let a: [i64; 12] = [
        (ds << 13u64) >> 4u64,
        (ys << 13u64) >> 4u64,
        reg.dxdx_start as i64 * 256,
        reg.dxdy_start as i64 * 256,
        reg.dydx_start as i64 * 256,
        reg.dydy_start as i64 * 256,
        reg.dxdxdx_start as i64 * 256,
        reg.dydxdx_start as i64 * 256,
        reg.dydxdy_start as i64 * 256,
        reg.dxdxdy_start as i64 * 256,
        reg.dydydx_start as i64 * 256,
        reg.dydydy_start as i64 * 256,
    ];
    assert(acc_of(a@) == row_start(*reg));
    a
}

/// Advances the row accumulators by one row.
fn advance_row(reg: &RegInfo, a: &mut [i64; 12])
    requires
        row_in_i64(row_step(*reg, acc_of(old(a)@))),
    ensures
        acc_of(final(a)@) == row_step(*reg, acc_of(old(a)@)),
{
    let dxdx0 = a[2] + asr8(a[7]);
    let dx0 = a[0] + asr6(a[4]);
    let dydx0 = a[4] + asr8(a[10]);
    let dxdy0 = a[3] + asr8(a[8]);
    let dy0 = a[1] + asr6(a[5]);
    let dydy0 = a[5] + asr8(a[11]);
    let dxdxdx0 = a[6] + reg.cx as i64;
    let dydxdx0 = a[7] + reg.dx as i64;
    let dydydx0 = a[10] + reg.bx as i64;
    let dxdxdy0 = a[9] + reg.cy as i64;
    let dydxdy0 = a[8] + reg.dy as i64;
    let dydydy0 = a[11] + reg.by as i64;
    *a = [dx0, dy0, dxdx0, dxdy0, dydx0, dydy0, dxdxdx0, dydxdx0, dydxdy0, dxdxdy0, dydydx0, dydydy0];
}

/// Advances the column accumulators by one column.
fn advance_col(reg: &RegInfo, a: &mut [i64; 6])
    requires
        col_in_i64(col_step(*reg, col_of(old(a)@))),
    ensures
        col_of(final(a)@) == col_step(*reg, col_of(old(a)@)),
{
    let x0 = a[0] + asr6(a[1]);
    let xd_x0 = a[1] + asr8(a[2]);
    let xd_xd_x0 = a[2] + reg.ax as i64;
    let y0 = a[3] + asr6(a[4]);
    let xd_y0 = a[4] + asr8(a[5]);
    let xd_xd_y0 = a[5] + reg.ay as i64;
    *a = [x0, xd_x0, xd_xd_x0, y0, xd_y0, xd_xd_y0];
}

fn checked(v: Option<i64>) -> (r: i64)
    requires
        v is Some,
    ensures
        v == Some(r),
{
    match v {
        Some(x) => x,
        None => 0,
    }
}

/// Advances the row accumulators by one row where every new value fits in
/// `i64`; says whether they did.
fn try_advance_row(reg: &RegInfo, a: &mut [i64; 12]) -> (ok: bool)
    ensures
        ok == row_in_i64(row_step(*reg, acc_of(old(a)@))),
        ok ==> acc_of(final(a)@) == row_step(*reg, acc_of(old(a)@)),
{
    if a[0].checked_add(asr6(a[4])).is_none() {
        return false;
    }
    if a[1].checked_add(asr6(a[5])).is_none() {
        return false;
    }
    if a[2].checked_add(asr8(a[7])).is_none() {
        return false;
    }
    if a[3].checked_add(asr8(a[8])).is_none() {
        return false;
    }
    if a[4].checked_add(asr8(a[10])).is_none() {
        return false;
    }
    if a[5].checked_add(asr8(a[11])).is_none() {
        return false;
    }
    if a[6].checked_add(reg.cx as i64).is_none() {
        return false;
    }
    if a[7].checked_add(reg.dx as i64).is_none() {
        return false;
    }
    if a[8].checked_add(reg.dy as i64).is_none() {
        return false;
    }
    if a[9].checked_add(reg.cy as i64).is_none() {
        return false;
    }
    if a[10].checked_add(reg.bx as i64).is_none() {
        return false;
    }
    if a[11].checked_add(reg.by as i64).is_none() {
        return false;
    }
    advance_row(reg, a);
    true
}

/// Advances the column accumulators by one column where every new value
/// fits in `i64`; says whether they did.
fn try_advance_col(reg: &RegInfo, a: &mut [i64; 6]) -> (ok: bool)
    ensures
        ok == col_in_i64(col_step(*reg, col_of(old(a)@))),
        ok ==> col_of(final(a)@) == col_step(*reg, col_of(old(a)@)),
{
    if a[0].checked_add(asr6(a[1])).is_none() {
        return false;
    }
    if a[1].checked_add(asr8(a[2])).is_none() {
        return false;
    }
    if a[2].checked_add(reg.ax as i64).is_none() {
        return false;
    }
    if a[3].checked_add(asr6(a[4])).is_none() {
        return false;
    }
    if a[4].checked_add(asr8(a[5])).is_none() {
        return false;
    }
    if a[5].checked_add(reg.ay as i64).is_none() {
        return false;
    }
    advance_col(reg, a);
    true
}

/// The column accumulators at the start of a row, from its row
/// accumulators.
fn start_col(a: &[i64; 12]) -> (c: [i64; 6])
    ensures
        col_of(c@) == col_start(acc_of(a@)),
{
    let c = [a[0], a[2], a[6], a[1], a[3], a[9]];
    assert(col_of(c@) == col_start(acc_of(a@)));
    c
}

/// Whether evaluating the polynomial over a frame of `resolution_x` by
/// `resolution_y` pixels keeps every accumulator within `i64`.
pub fn dxdy_tables_fit(resolution_x: i32, resolution_y: i32, regdata: &RegInfo) -> (r: bool)
    ensures
        r == dxdy_fits(*regdata, resolution_x as int, resolution_y as int),
{
    let ghost reg = *regdata;
    let ghost rx = resolution_x as int;
    let ghost ry = resolution_y as int;
    let mut acc = start_row(regdata);
    let mut row: i32 = 0;
    while row < resolution_y
        invariant
            reg == *regdata,
            rx == resolution_x,
            ry == resolution_y,
            0 <= row,
            row <= ry || ry < 0,
            acc_of(acc@) == row_acc(reg, row as nat),
            forall|r: nat| r <= row ==> #[trigger] row_in_i64(row_acc(reg, r)),
            forall|y: nat, c: nat| y < row && c <= rx ==> #[trigger] col_in_i64(col_acc(reg, y, c)),
        decreases ry - row,
    {
        if !try_advance_row(regdata, &mut acc) {
            assert(!row_in_i64(row_acc(reg, (row + 1) as nat)));
            return false;
        }
        assert(acc_of(acc@) == row_acc(reg, (row + 1) as nat));
        let mut cols = start_col(&acc);
        assert(col_of(cols@) == col_acc(reg, row as nat, 0));
        let mut col: i32 = 0;
        while col < resolution_x
            invariant
                reg == *regdata,
                rx == resolution_x,
                ry == resolution_y,
                0 <= row < ry,
                0 <= col,
                col <= rx || rx < 0,
                col_of(cols@) == col_acc(reg, row as nat, col as nat),
                forall|c: nat| c <= col ==> #[trigger] col_in_i64(col_acc(reg, row as nat, c)),
            decreases rx - col,
        {
            if !try_advance_col(regdata, &mut cols) {
                assert(!col_in_i64(col_acc(reg, row as nat, (col + 1) as nat)));
                return false;
            }
            col = col + 1;
            assert(col_of(cols@) == col_acc(reg, row as nat, col as nat));
        }
        assert forall|y: nat, c: nat| y < row + 1 && c <= rx implies #[trigger] col_in_i64(
            col_acc(reg, y, c),
        ) by {
            if y == row {
                assert(c <= col);
            }
        }
        row = row + 1;
    }
    assert(row >= ry);
    true
}

/// Evaluates the registration polynomial over a frame of `resolution_x` by
/// `resolution_y` pixels, in fixed point with 17 fractional bits: entry
/// `y * resolution_x + x` of the tables is the horizontal and the vertical
/// offset of the pixel at column `x`, row `y`. Entries beyond the frame are
/// left as they were.
pub fn create_dxdy_tables(
    reg_x_table: &mut [i64],
    reg_y_table: &mut [i64],
    resolution_x: i32,
    resolution_y: i32,
    regdata: &RegInfo,
)
    requires
        table_cells(resolution_x as int, resolution_y as int) <= old(reg_x_table)@.len(),
        table_cells(resolution_x as int, resolution_y as int) <= old(reg_y_table)@.len(),
        dxdy_fits(*regdata, resolution_x as int, resolution_y as int),
    ensures
        final(reg_x_table)@.len() == old(reg_x_table)@.len(),
        final(reg_y_table)@.len() == old(reg_y_table)@.len(),
        forall|y: int, x: int|
            0 <= y < resolution_y && 0 <= x < resolution_x ==> {
                let c = #[trigger] col_acc(*regdata, y as nat, x as nat);
                &&& final(reg_x_table)@[y * resolution_x + x] == c.x0
                &&& final(reg_y_table)@[y * resolution_x + x] == c.y0
            },
        forall|i: int|
            table_cells(resolution_x as int, resolution_y as int) <= i < old(reg_x_table)@.len()
                ==> #[trigger] final(reg_x_table)@[i] == old(reg_x_table)@[i],
        forall|i: int|
            table_cells(resolution_x as int, resolution_y as int) <= i < old(reg_y_table)@.len()
                ==> #[trigger] final(reg_y_table)@[i] == old(reg_y_table)@[i],
{
    let ghost reg = *regdata;
    let ghost rx = resolution_x as int;
    let ghost ry = resolution_y as int;
    let ghost cells = table_cells(rx, ry);
    let ghost old_x = reg_x_table@;
    let ghost old_y = reg_y_table@;
    let mut acc = start_row(regdata);
    let mut t_offs: usize = 0;
    let mut row: i32 = 0;
    while row < resolution_y
        invariant
            reg == *regdata,
            rx == resolution_x,
            ry == resolution_y,
            cells == table_cells(rx, ry),
            dxdy_fits(reg, rx, ry),
            cells <= old_x.len(),
            cells <= old_y.len(),
            reg_x_table@.len() == old_x.len(),
            reg_y_table@.len() == old_y.len(),
            0 <= row,
            row <= ry || ry < 0,
            t_offs == (if rx > 0 {
                row * rx
            } else {
                0
            }),
            t_offs <= cells || row == 0,
            acc_of(acc@) == row_acc(reg, row as nat),
            forall|y: int, x: int|
                0 <= y < row && 0 <= x < rx ==> {
                    let c = #[trigger] col_acc(reg, y as nat, x as nat);
                    &&& reg_x_table@[y * rx + x] == c.x0
                    &&& reg_y_table@[y * rx + x] == c.y0
                },
            forall|i: int| t_offs <= i < old_x.len() ==> #[trigger] reg_x_table@[i] == old_x[i],
            forall|i: int| t_offs <= i < old_y.len() ==> #[trigger] reg_y_table@[i] == old_y[i],
        decreases ry - row,
    {
        assert(row_step(reg, acc_of(acc@)) == row_acc(reg, (row + 1) as nat));
        assert(row_in_i64(row_acc(reg, (row + 1) as nat)));
        advance_row(regdata, &mut acc);
        assert(acc_of(acc@) == row_acc(reg, (row + 1) as nat));
        let mut cols = start_col(&acc);
        assert(col_of(cols@) == col_acc(reg, row as nat, 0));
        proof {
            if rx > 0 {
                assert((row + 1) * rx <= ry * rx) by (nonlinear_arith)
                    requires
                        row < ry,
                        rx >= 0,
                ;
                assert((row + 1) * rx == row * rx + rx) by (nonlinear_arith);
                assert(ry * rx == rx * ry) by (nonlinear_arith);
            }
        }
        let mut col: i32 = 0;
        while col < resolution_x
            invariant
                reg == *regdata,
                rx == resolution_x,
                ry == resolution_y,
                dxdy_fits(reg, rx, ry),
                reg_x_table@.len() == old_x.len(),
                reg_y_table@.len() == old_y.len(),
                0 <= row < ry,
                rx > 0 ==> row * rx + rx <= old_x.len(),
                rx > 0 ==> row * rx + rx <= old_y.len(),
                0 <= col,
                col <= rx || rx < 0,
                t_offs == (if rx > 0 {
                    row * rx + col
                } else {
                    0
                }),
                col_of(cols@) == col_acc(reg, row as nat, col as nat),
                forall|y: int, x: int|
                    0 <= y < row && 0 <= x < rx ==> {
                        let c = #[trigger] col_acc(reg, y as nat, x as nat);
                        &&& reg_x_table@[y * rx + x] == c.x0
                        &&& reg_y_table@[y * rx + x] == c.y0
                    },
                forall|x: int|
                    0 <= x < col ==> {
                        let c = #[trigger] col_acc(reg, row as nat, x as nat);
                        &&& reg_x_table@[row * rx + x] == c.x0
                        &&& reg_y_table@[row * rx + x] == c.y0
                    },
                forall|i: int| t_offs <= i < old_x.len() ==> #[trigger] reg_x_table@[i] == old_x[i],
                forall|i: int| t_offs <= i < old_y.len() ==> #[trigger] reg_y_table@[i] == old_y[i],
            decreases rx - col,
        {
            proof {
                assert forall|y: int, x: int|
                    #![trigger col_acc(reg, y as nat, x as nat)]
                    0 <= y < row && 0 <= x < rx implies y * rx + x < t_offs by {
                    lemma_earlier_row(y, x, row as int, rx);
                }
                assert(col_in_i64(col_acc(reg, row as nat, (col + 1) as nat)));
                assert(col_step(reg, col_of(cols@)) == col_acc(reg, row as nat, (col + 1) as nat));
            }
            reg_x_table[t_offs] = cols[0];
            reg_y_table[t_offs] = cols[3];
            t_offs = t_offs + 1;
            advance_col(regdata, &mut cols);
            col = col + 1;
        }
        proof {
            assert forall|y: int, x: int| 0 <= y < row + 1 && 0 <= x < rx implies {
                let c = #[trigger] col_acc(reg, y as nat, x as nat);
                &&& reg_x_table@[y * rx + x] == c.x0
                &&& reg_y_table@[y * rx + x] == c.y0
            } by {
                if y == row {
                    assert(col_acc(reg, row as nat, x as nat) == col_acc(reg, y as nat, x as nat));
                }
            }
        }
        row = row + 1;
        proof {
            if rx > 0 {
                assert(row * rx <= ry * rx) by (nonlinear_arith)
                    requires
                        row <= ry,
                        rx >= 0,
                ;
                assert(ry * rx == rx * ry) by (nonlinear_arith);
            }
        }
    }
    proof {
        if rx > 0 && ry > 0 {
            assert(row == ry);
            assert(t_offs == rx * ry) by (nonlinear_arith)
                requires
                    t_offs == row * rx,
                    row == ry,
            ;
        }
    }
}


proof fn lemma_earlier_row(y: int, x: int, row: int, rx: int)
    requires
        0 <= y < row,
        0 <= x < rx,
    ensures
        0 <= y * rx + x < row * rx,
{
    assert(0 <= y * rx + x < row * rx) by (nonlinear_arith)
        requires
            0 <= y < row,
            0 <= x < rx,
    ;
}

/// One in fixed point with 17 fractional bits.
pub open spec fn fixed_one() -> int {
    0x20000
}

/// `v` limited to the range of `i32`.
pub open spec fn saturate_i32(v: int) -> int {
    if v < i32::MIN {
        i32::MIN as int
    } else if v > i32::MAX {
        i32::MAX as int
    } else {
        v
    }
}

/// The registered position of the depth pixel at column `x`, row `y`, whose
/// polynomial offsets are `dx` and `dy` in fixed point: the pixel moves by
/// its offsets and one more pixel right and down. A position outside the
/// frame is sent two frame widths to the right. The column is kept in 1/256
/// pixel, the row in whole pixels, each rounded toward zero.
pub open spec fn registered_position(x: int, y: int, dx: int, dy: int) -> (int, int) {
    let nx = (x + 1) * fixed_one() + dx;
    let ny = (y + 1) * fixed_one() + dy;
    let outside = nx < 0 || ny < 0 || nx >= DEPTH_X_RES * fixed_one() || ny >= DEPTH_Y_RES * fixed_one();
    (
        if outside {
            2 * DEPTH_X_RES * REG_X_VAL_SCALE
        } else {
            nx / 512
        },
        saturate_i32(trunc_div(ny, fixed_one())),
    )
}

fn register_position(x: usize, y: usize, dx: i64, dy: i64) -> (r: [i32; 2])
    requires
        x < DEPTH_X_RES,
        y < DEPTH_Y_RES,
    ensures
        r[0] as int == registered_position(x as int, y as int, dx as int, dy as int).0,
        r[1] as int == registered_position(x as int, y as int, dx as int, dy as int).1,
{
    let nx: i128 = (x as i128 + 1) * 0x20000 + dx as i128;
    let ny: i128 = (y as i128 + 1) * 0x20000 + dy as i128;
    let col: i32 = if nx < 0 || ny < 0 || nx >= 640 * 0x20000 || ny >= 480 * 0x20000 {
        2 * 640 * 256
    } else {
        (nx / 512) as i32
    };
    let row_t: i128 = if ny >= 0 {
        ny / 0x20000
    } else {
        -((-ny) / 0x20000)
    };
    let row: i32 = if row_t < i32::MIN as i128 {
        i32::MIN
    } else if row_t > i32::MAX as i128 {
        i32::MAX
    } else {
        row_t as i32
    };
    [col, row]
}

/// The registration table of the depth pixels from their polynomial offsets
/// (as `create_dxdy_tables` computes them over the whole frame): entry
/// `y * DEPTH_X_RES + x` is the registered position of the pixel at column
/// `x`, row `y`.
pub fn registration_table_from_offsets(reg_x_table: &[i64], reg_y_table: &[i64]) -> (r: Vec<[i32; 2]>)
    requires
        reg_x_table@.len() >= DEPTH_PIXELS,
        reg_y_table@.len() >= DEPTH_PIXELS,
    ensures
        r@.len() == DEPTH_PIXELS,
        forall|i: int|
            0 <= i < DEPTH_PIXELS ==> {
                let p = registered_position(
                    i % DEPTH_X_RES as int,
                    i / DEPTH_X_RES as int,
                    reg_x_table@[i] as int,
                    reg_y_table@[i] as int,
                );
                &&& (#[trigger] r@[i])[0] as int == p.0
                &&& r@[i][1] as int == p.1
            },
{
    let mut table: Vec<[i32; 2]> = Vec::new();
    let mut index: usize = 0;
    let mut y: usize = 0;
    while y < DEPTH_Y_RES
        invariant
            y <= DEPTH_Y_RES,
            index == y * DEPTH_X_RES,
            table@.len() == index,
            reg_x_table@.len() >= DEPTH_PIXELS,
            reg_y_table@.len() >= DEPTH_PIXELS,
            forall|i: int|
                0 <= i < index ==> {
                    let p = registered_position(
                        i % DEPTH_X_RES as int,
                        i / DEPTH_X_RES as int,
                        reg_x_table@[i] as int,
                        reg_y_table@[i] as int,
                    );
                    &&& (#[trigger] table@[i])[0] as int == p.0
                    &&& table@[i][1] as int == p.1
                },
        decreases DEPTH_Y_RES - y,
    {
        let mut x: usize = 0;
        while x < DEPTH_X_RES
            invariant
                y < DEPTH_Y_RES,
                x <= DEPTH_X_RES,
                index == y * DEPTH_X_RES + x,
                table@.len() == index,
                reg_x_table@.len() >= DEPTH_PIXELS,
                reg_y_table@.len() >= DEPTH_PIXELS,
                forall|i: int|
                    0 <= i < index ==> {
                        let p = registered_position(
                            i % DEPTH_X_RES as int,
                            i / DEPTH_X_RES as int,
                            reg_x_table@[i] as int,
                            reg_y_table@[i] as int,
                        );
                        &&& (#[trigger] table@[i])[0] as int == p.0
                        &&& table@[i][1] as int == p.1
                    },
            decreases DEPTH_X_RES - x,
        {
            let entry = register_position(x, y, reg_x_table[index], reg_y_table[index]);
            proof {
                vstd::arithmetic::div_mod::lemma_fundamental_div_mod_converse(
                    index as int,
                    DEPTH_X_RES as int,
                    y as int,
                    x as int,
                );
            }
            table.push(entry);
            index = index + 1;
            x = x + 1;
        }
        y = y + 1;
    }
    table
}

/// Division by 256 rounding toward zero.
fn trunc_div_256(a: i32) -> (r: i32)
    ensures
        r == trunc_div(a as int, 256),
{
    a / 256
}

} // verus!

verus! {

/// Converting a packed depth frame to millimetres gives what unpacking it
/// first and converting the unpacked samples gives: both read the
/// millimetre table at the same raw value.
pub proof fn lemma_depth_to_mm_paths_agree(
    reg: Registration,
    packed: Seq<u8>,
    unpacked: Seq<u16>,
    from_packed: Seq<u16>,
    from_unpacked: Seq<u16>,
)
    requires
        reg.wf(),
        unpacked.len() == DEPTH_PIXELS,
        forall|k: int| 0 <= k < DEPTH_PIXELS ==> #[trigger] unpacked[k] == packed_field(packed, 11, k as nat),
        from_packed.len() == DEPTH_PIXELS,
        forall|k: int|
            0 <= k < DEPTH_PIXELS ==> #[trigger] from_packed[k] == clamp_metric(
                reg.raw_to_mm_shift@[packed_field(packed, 11, k as nat) as int] as int,
            ),
        from_unpacked.len() == DEPTH_PIXELS,
        forall|k: int|
            0 <= k < DEPTH_PIXELS ==> #[trigger] from_unpacked[k] == clamp_metric(
                reg.raw_to_mm_shift@[unpacked[k] as int] as int,
            ),
    ensures
        from_packed == from_unpacked,
{
    assert forall|k: int| 0 <= k < DEPTH_PIXELS implies from_packed[k] == from_unpacked[k] by {
        assert(unpacked[k] == packed_field(packed, 11, k as nat));
    }
    assert(from_packed =~= from_unpacked);
}

} // verus!

verus! {

/// `-b <= v <= b`.
pub open spec fn within(v: int, b: int) -> bool {
    -b <= v <= b
}

/// Bounds of the row accumulators after `r` rows.
pub open spec fn row_bounded(s: RowAcc, r: int) -> bool {
    let b3 = 0x80_0000_0000 + r * 0x8000_0000;
    let b2 = 0x80_0000_0000 + r * 0x4_0000_0000;
    let b1 = 0x100_0000_0000 + r * 0x40_0000_0000;
    &&& within(s.dxdxdx0, b3)
    &&& within(s.dydxdx0, b3)
    &&& within(s.dydxdy0, b3)
    &&& within(s.dxdxdy0, b3)
    &&& within(s.dydydx0, b3)
    &&& within(s.dydydy0, b3)
    &&& within(s.dxdx0, b2)
    &&& within(s.dxdy0, b2)
    &&& within(s.dydx0, b2)
    &&& within(s.dydy0, b2)
    &&& within(s.dx0, b1)
    &&& within(s.dy0, b1)
}

/// Bounds of the column accumulators after `c` columns of a row among the
/// first 480.
pub open spec fn col_bounded(a: ColAcc, c: int) -> bool {
    let b3 = 0x80_0000_0000 + 480 * 0x8000_0000 + c * 0x8000_0000;
    let b2 = 0x80_0000_0000 + 480 * 0x4_0000_0000 + c * 0x4_0000_0000;
    let b1 = 0x100_0000_0000 + 480 * 0x40_0000_0000 + c * 0x80_0000_0000;
    &&& within(a.xd_xd_x0, b3)
    &&& within(a.xd_xd_y0, b3)
    &&& within(a.xd_x0, b2)
    &&& within(a.xd_y0, b2)
    &&& within(a.x0, b1)
    &&& within(a.y0, b1)
}

proof fn lemma_row_bounded(reg: RegInfo, r: nat)
    requires
        r <= 480,
    ensures
        row_bounded(row_acc(reg, r), r as int),
    decreases r,
{
    if r > 0 {
        lemma_row_bounded(reg, (r - 1) as nat);
    }
}

proof fn lemma_col_bounded(reg: RegInfo, row: nat, c: nat)
    requires
        row < 480,
        c <= 640,
    ensures
        col_bounded(col_acc(reg, row, c), c as int),
    decreases c,
{
    if c == 0 {
        lemma_row_bounded(reg, row + 1);
    } else {
        lemma_col_bounded(reg, row, (c - 1) as nat);
    }
}

/// Any registration data can be evaluated over a frame of at most 640 by 480
/// pixels, the size of a depth frame, within `i64`.
pub proof fn lemma_depth_frame_fits(reg: RegInfo, resolution_x: int, resolution_y: int)
    requires
        resolution_x <= 640,
        resolution_y <= 480,
    ensures
        dxdy_fits(reg, resolution_x, resolution_y),
{
    assert forall|r: nat| r <= resolution_y implies #[trigger] row_in_i64(row_acc(reg, r)) by {
        lemma_row_bounded(reg, r);
    }
    assert forall|row: nat, c: nat| row < resolution_y && c <= resolution_x implies #[trigger] col_in_i64(
        col_acc(reg, row, c),
    ) by {
        lemma_col_bounded(reg, row, c);
    }
}


// ---------------------------------------------------------------------------
// What the registration polynomial depends on.
// ---------------------------------------------------------------------------

/// The two calibrations agree on every coefficient of the horizontal offset
/// polynomial: `ax`, `bx`, `cx`, `dx` and the horizontal start values.
pub open spec fn same_x_coeffs(a: RegInfo, b: RegInfo) -> bool {
    &&& a.ax == b.ax
    &&& a.bx == b.bx
    &&& a.cx == b.cx
    &&& a.dx == b.dx
    &&& a.dx_start == b.dx_start
    &&& a.dxdx_start == b.dxdx_start
    &&& a.dydx_start == b.dydx_start
    &&& a.dxdxdx_start == b.dxdxdx_start
    &&& a.dydxdx_start == b.dydxdx_start
    &&& a.dydydx_start == b.dydydx_start
}

/// The two calibrations agree on every coefficient of the vertical offset
/// polynomial: `ay`, `by`, `cy`, `dy` and the vertical start values.
pub open spec fn same_y_coeffs(a: RegInfo, b: RegInfo) -> bool {
    &&& a.ay == b.ay
    &&& a.by == b.by
    &&& a.cy == b.cy
    &&& a.dy == b.dy
    &&& a.dy_start == b.dy_start
    &&& a.dxdy_start == b.dxdy_start
    &&& a.dydy_start == b.dydy_start
    &&& a.dxdxdy_start == b.dxdxdy_start
    &&& a.dydxdy_start == b.dydxdy_start
    &&& a.dydydy_start == b.dydydy_start
}

/// Every coefficient of the horizontal offset polynomial is 0.
pub open spec fn zero_x_coeffs(r: RegInfo) -> bool {
    &&& r.ax == 0
    &&& r.bx == 0
    &&& r.cx == 0
    &&& r.dx == 0
    &&& r.dx_start == 0
    &&& r.dxdx_start == 0
    &&& r.dydx_start == 0
    &&& r.dxdxdx_start == 0
    &&& r.dydxdx_start == 0
    &&& r.dydydx_start == 0
}

/// Every coefficient of the vertical offset polynomial is 0.
pub open spec fn zero_y_coeffs(r: RegInfo) -> bool {
    &&& r.ay == 0
    &&& r.by == 0
    &&& r.cy == 0
    &&& r.dy == 0
    &&& r.dy_start == 0
    &&& r.dxdy_start == 0
    &&& r.dydy_start == 0
    &&& r.dxdxdy_start == 0
    &&& r.dydxdy_start == 0
    &&& r.dydydy_start == 0
}

proof fn lemma_rows_split(a: RegInfo, b: RegInfo, r: nat)
    ensures
        same_x_coeffs(a, b) ==> {
            let p = row_acc(a, r);
            let q = row_acc(b, r);
            &&& p.dx0 == q.dx0
            &&& p.dxdx0 == q.dxdx0
            &&& p.dydx0 == q.dydx0
            &&& p.dxdxdx0 == q.dxdxdx0
            &&& p.dydxdx0 == q.dydxdx0
            &&& p.dydydx0 == q.dydydx0
        },
        same_y_coeffs(a, b) ==> {
            let p = row_acc(a, r);
            let q = row_acc(b, r);
            &&& p.dy0 == q.dy0
            &&& p.dxdy0 == q.dxdy0
            &&& p.dydy0 == q.dydy0
            &&& p.dxdxdy0 == q.dxdxdy0
            &&& p.dydxdy0 == q.dydxdy0
            &&& p.dydydy0 == q.dydydy0
        },
    decreases r,
{
    if r > 0 {
        lemma_rows_split(a, b, (r - 1) as nat);
    }
}

/// The horizontal offsets depend on the horizontal coefficients alone, and
/// the vertical offsets on the vertical ones: two calibrations that agree on
/// `ax`, `bx`, `cx`, `dx` and the horizontal start values give every pixel
/// the same horizontal offset, whatever their vertical coefficients, and
/// likewise for the vertical offset.
pub proof fn lemma_offsets_split_by_axis(a: RegInfo, b: RegInfo, row: nat, c: nat)
    ensures
        same_x_coeffs(a, b) ==> col_acc(a, row, c).x0 == col_acc(b, row, c).x0,
        same_y_coeffs(a, b) ==> col_acc(a, row, c).y0 == col_acc(b, row, c).y0,
{
    lemma_cols_split(a, b, row, c);
}

proof fn lemma_cols_split(a: RegInfo, b: RegInfo, row: nat, c: nat)
    ensures
        same_x_coeffs(a, b) ==> {
            let p = col_acc(a, row, c);
            let q = col_acc(b, row, c);
            p.x0 == q.x0 && p.xd_x0 == q.xd_x0 && p.xd_xd_x0 == q.xd_xd_x0
        },
        same_y_coeffs(a, b) ==> {
            let p = col_acc(a, row, c);
            let q = col_acc(b, row, c);
            p.y0 == q.y0 && p.xd_y0 == q.xd_y0 && p.xd_xd_y0 == q.xd_xd_y0
        },
    decreases c,
{
    if c == 0 {
        lemma_rows_split(a, b, row + 1);
    } else {
        lemma_cols_split(a, b, row, (c - 1) as nat);
    }
}

proof fn lemma_rows_zero(a: RegInfo, r: nat)
    ensures
        zero_x_coeffs(a) ==> {
            let p = row_acc(a, r);
            &&& p.dx0 == 0
            &&& p.dxdx0 == 0
            &&& p.dydx0 == 0
            &&& p.dxdxdx0 == 0
            &&& p.dydxdx0 == 0
            &&& p.dydydx0 == 0
        },
        zero_y_coeffs(a) ==> {
            let p = row_acc(a, r);
            &&& p.dy0 == 0
            &&& p.dxdy0 == 0
            &&& p.dydy0 == 0
            &&& p.dxdxdy0 == 0
            &&& p.dydxdy0 == 0
            &&& p.dydydy0 == 0
        },
    decreases r,
{
    if r > 0 {
        lemma_rows_zero(a, (r - 1) as nat);
    }
}

proof fn lemma_cols_zero(a: RegInfo, row: nat, c: nat)
    ensures
        zero_x_coeffs(a) ==> {
            let p = col_acc(a, row, c);
            p.x0 == 0 && p.xd_x0 == 0 && p.xd_xd_x0 == 0
        },
        zero_y_coeffs(a) ==> {
            let p = col_acc(a, row, c);
            p.y0 == 0 && p.xd_y0 == 0 && p.xd_xd_y0 == 0
        },
    decreases c,
{
    if c == 0 {
        lemma_rows_zero(a, row + 1);
    } else {
        lemma_cols_zero(a, row, (c - 1) as nat);
    }
}

/// A calibration whose horizontal coefficients are all 0 moves no pixel
/// horizontally, whatever its vertical coefficients (such as `by`); one
/// whose vertical coefficients are all 0 moves no pixel vertically, whatever
/// its horizontal ones (such as `bx`).
pub proof fn lemma_zero_axis_no_offset(reg: RegInfo, row: nat, c: nat)
    ensures
        zero_x_coeffs(reg) ==> col_acc(reg, row, c).x0 == 0,
        zero_y_coeffs(reg) ==> col_acc(reg, row, c).y0 == 0,
{
    lemma_cols_zero(reg, row, c);
}

// ---------------------------------------------------------------------------
// The depth buffer of the registration.
// ---------------------------------------------------------------------------

impl Registration {
    /// After the first `n` source pixels, output pixel `t` holds the nearest
    /// depth that lands on it: a depth not above that of any source pixel
    /// among them that lands on `t`, and not 0 if one does; the depth of one
    /// of them; and 0 where none lands on it.
    pub proof fn lemma_reg_min_is_nearest(&self, input: Seq<u8>, unpacked: bool, n: nat, t: int)
        ensures
            forall|k: int|
                0 <= k < n && (#[trigger] self.reg_target(input, unpacked, k)) is Some
                    && self.reg_target(input, unpacked, k).unwrap().0 == t ==> 0 < self.reg_min(
                    input,
                    unpacked,
                    n,
                    t,
                ) <= self.reg_target(input, unpacked, k).unwrap().1,
            self.reg_min(input, unpacked, n, t) != 0 ==> exists|k: int|
                0 <= k < n && #[trigger] self.reg_target(input, unpacked, k) == Some(
                    (t, self.reg_min(input, unpacked, n, t)),
                ),
            self.reg_min(input, unpacked, n, t) >= 0,
        decreases n,
    {
        if n > 0 {
            let n1 = (n - 1) as nat;
            self.lemma_reg_min_is_nearest(input, unpacked, n1, t);
            let prev = self.reg_min(input, unpacked, n1, t);
            let cur = self.reg_min(input, unpacked, n, t);
            match self.reg_target(input, unpacked, n - 1) {
                Some((tt, m)) => {
                    assert(m > 0);
                    if tt == t {
                        assert(cur == min_depth(prev, m));
                        if prev != 0 {
                            let k0 = choose|k: int|
                                0 <= k < n1 && #[trigger] self.reg_target(input, unpacked, k) == Some(
                                    (t, prev),
                                );
                            if cur == prev {
                                assert(self.reg_target(input, unpacked, k0) == Some((t, cur)));
                            } else {
                                assert(self.reg_target(input, unpacked, n - 1) == Some((t, cur)));
                            }
                        } else {
                            assert(self.reg_target(input, unpacked, n - 1) == Some((t, cur)));
                        }
                    } else {
                        assert(cur == prev);
                        if prev != 0 {
                            let k0 = choose|k: int|
                                0 <= k < n1 && #[trigger] self.reg_target(input, unpacked, k) == Some(
                                    (t, prev),
                                );
                            assert(self.reg_target(input, unpacked, k0) == Some((t, cur)));
                        }
                    }
                },
                None => {
                    assert(cur == prev);
                    if prev != 0 {
                        let k0 = choose|k: int|
                            0 <= k < n1 && #[trigger] self.reg_target(input, unpacked, k) == Some(
                                (t, prev),
                            );
                        assert(self.reg_target(input, unpacked, k0) == Some((t, cur)));
                    }
                },
            }
        }
    }

    /// Each output pixel of a registered frame holds the nearest depth that
    /// lands on it: not above the metric depth of any source pixel of the
    /// frame that lands on it (and not 0 if one does), equal to that of one
    /// of them, and 0 where none lands.
    pub proof fn lemma_registered_frame_nearest(&self, input: Seq<u8>, unpacked: bool, t: int)
        ensures
            forall|k: int|
                0 <= k < DEPTH_PIXELS && (#[trigger] self.reg_target(input, unpacked, k)) is Some
                    && self.reg_target(input, unpacked, k).unwrap().0 == t ==> 0 < self.reg_min(
                    input,
                    unpacked,
                    DEPTH_PIXELS as nat,
                    t,
                ) <= self.reg_target(input, unpacked, k).unwrap().1,
            self.reg_min(input, unpacked, DEPTH_PIXELS as nat, t) != 0 ==> exists|k: int|
                0 <= k < DEPTH_PIXELS && #[trigger] self.reg_target(input, unpacked, k) == Some(
                    (t, self.reg_min(input, unpacked, DEPTH_PIXELS as nat, t)),
                ),
            self.reg_min(input, unpacked, DEPTH_PIXELS as nat, t) == 0 ==> forall|k: int|
                0 <= k < DEPTH_PIXELS ==> !((#[trigger] self.reg_target(input, unpacked, k)) is Some
                    && self.reg_target(input, unpacked, k).unwrap().0 == t),
    {
        self.lemma_reg_min_is_nearest(input, unpacked, DEPTH_PIXELS as nat, t);
    }
}

} // verus!
