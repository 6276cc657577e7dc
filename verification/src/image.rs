use vstd::prelude::*;
use vstd::arithmetic::div_mod::lemma_mod_sub_multiples_vanish;
use vstd::arithmetic::div_mod::lemma_small_mod;

verus! {

/// One byte of a rewritten pixel: a byte copied from the source pixel at the
/// given offset, or a fully opaque alpha byte (`0xff`).
#[derive(Clone, Copy, Debug, PartialEq, Eq, Structural)]
pub enum PixelByte {
    Source(usize),
    Opaque,
}

/// The value of one output byte, given the source pixel.
pub open spec fn pixel_byte_value(pixel: Seq<u8>, b: PixelByte) -> u8 {
    match b {
        PixelByte::Source(i) => pixel[i as int],
        PixelByte::Opaque => 0xffu8,
    }
}

/// The bytes that `pattern` makes out of one source pixel.
pub open spec fn apply_pattern(pixel: Seq<u8>, pattern: Seq<PixelByte>) -> Seq<u8> {
    Seq::new(pattern.len(), |j: int| pixel_byte_value(pixel, pattern[j]))
}

/// Every source offset named by `pattern` is below `n`.
pub open spec fn reads_within(pattern: Seq<PixelByte>, n: nat) -> bool {
    forall|j: int|
        0 <= j < pattern.len() ==> match #[trigger] pattern[j] {
            PixelByte::Source(i) => i < n,
            PixelByte::Opaque => true,
        }
}

/// Splits `data` into consecutive pixels of `k` bytes (the last one may be
/// shorter) and replaces each pixel by what `pattern` makes of it.
pub open spec fn remap(data: Seq<u8>, k: nat, pattern: Seq<PixelByte>) -> Seq<u8>
    decreases data.len(),
{
    if data.len() == 0 || k == 0 {
        Seq::empty()
    } else if data.len() <= k {
        apply_pattern(data, pattern)
    } else {
        apply_pattern(data.take(k as int), pattern) + remap(data.skip(k as int), k, pattern)
    }
}

/// Every pixel, the trailing partial one included, is long enough for `pattern`.
pub open spec fn remap_safe(len: nat, k: nat, pattern: Seq<PixelByte>) -> bool {
    &&& k > 0
    &&& reads_within(pattern, k)
    &&& (len % k == 0 || reads_within(pattern, len % k))
}

/// Rewrites every pixel of `data` as `pattern` says.
fn remap_pixels(data: &Vec<u8>, k: usize, pattern: &[PixelByte]) -> (out: Vec<u8>)
    requires
        remap_safe(data@.len(), k as nat, pattern@),
    ensures
        out@ == remap(data@, k as nat, pattern@),
{
    let mut out: Vec<u8> = Vec::new();
    let n = data.len();
    let mut start: usize = 0;
    assert(data@.skip(0) == data@);
    while start < n
        invariant
            n == data@.len(),
            start <= n,
            remap_safe((n - start) as nat, k as nat, pattern@),
            out@ + remap(data@.skip(start as int), k as nat, pattern@) == remap(
                data@,
                k as nat,
                pattern@,
            ),
        decreases n - start,
    {
        let rest = n - start;
        let end = if rest <= k {
            n
        } else {
            start + k
        };
        proof {
            if rest < k {
                lemma_small_mod(rest as nat, k as nat);
            }
            if rest > k {
                lemma_mod_sub_multiples_vanish(rest as int, k as int);
            }
        }
        assert(reads_within(pattern@, (end - start) as nat));
        let ghost chunk = data@.subrange(start as int, end as int);
        let ghost out0 = out@;
        let mut j: usize = 0;
        while j < pattern.len()
            invariant
                n == data@.len(),
                start < end <= n,
                chunk == data@.subrange(start as int, end as int),
                reads_within(pattern@, (end - start) as nat),
                j <= pattern@.len(),
                out@ == out0 + apply_pattern(chunk, pattern@).take(j as int),
            decreases pattern@.len() - j,
        {
            let b = pattern[j];
            assert(pattern@[j as int] == b);
            match b {
                PixelByte::Source(i) => {
                    out.push(data[start + i]);
                },
                PixelByte::Opaque => {
                    out.push(0xffu8);
                },
            }
            assert(apply_pattern(chunk, pattern@).take(j + 1) == apply_pattern(chunk, pattern@).take(
                j as int,
            ).push(pixel_byte_value(chunk, b)));
            j = j + 1;
        }
        assert(apply_pattern(chunk, pattern@).take(j as int) == apply_pattern(chunk, pattern@));
        let ghost tail = data@.skip(start as int);
        if rest <= k {
            assert(tail == chunk);
        } else {
            assert(tail.take(k as int) == chunk);
            assert(tail.skip(k as int) == data@.skip(end as int));
        }
        start = end;
    }
    assert(remap(data@.skip(n as int), k as nat, pattern@) == Seq::<u8>::empty());
    assert(out@ + Seq::<u8>::empty() == out@);
    out
}


/// Image type of a loaded image
#[derive(Debug, PartialEq, Eq, Clone, Copy, Structural)]
pub enum ImageType {
    /// A grayscale image with bit depth of 8
    R8,
    /// A grayscale image with bit depth of 16
    R16,
    /// A grayscale image  with an alpha channel and bit depth of 8
    Ra8,
    /// A grayscale image  with an alpha channel and bit depth of 16
    Ra16,
    /// An rgb image with the bit depth of 8
    Rgb8,
    /// An rgba image with the bit depth of 8
    Rgba8,
    /// An rgb image with the bit depth of 16
    Rgb16,
    /// An rgba image with the bit depth of 16
    Rgba16,
}

impl ImageType {
    /// Returns whether the image format is 16 bit or not
    #[must_use]
    pub fn is_16_bit(&self) -> (r: bool)
        ensures
            r <==> (*self == ImageType::R16 || *self == ImageType::Ra16 || *self
                == ImageType::Rgb16 || *self == ImageType::Rgba16),
    {
        !matches!(self, Self::R8 | Self::Ra8 | Self::Rgb8 | Self::Rgba8)
    }
}

/// A loaded png image
#[derive(PartialEq, Eq, Clone, Debug)]
pub struct Image {
    /// Width of the image
    pub width: u32,
    /// Height of the image
    pub height: u32,
    /// Type of the image
    pub img_type: ImageType,
    /// Actual data. Data in an image is stored in scanlines, going left to right, top to bottom
    pub data: Vec<u8>,
}

/// How a conversion rewrites an image of a given type: the new type, the
/// width in bytes of a source pixel, and the pattern applied to each pixel.
/// `None` means that the conversion leaves the image as it is.
pub type Plan = Option<(ImageType, nat, Seq<PixelByte>)>;

/// The conversion is free of out-of-range reads on data of length `len`.
pub open spec fn plan_safe(plan: Plan, len: nat) -> bool {
    match plan {
        Some((_, k, pattern)) => remap_safe(len, k, pattern),
        None => true,
    }
}

/// The image type after the conversion.
pub open spec fn plan_type(plan: Plan, t: ImageType) -> ImageType {
    match plan {
        Some((target, _, _)) => target,
        None => t,
    }
}

/// The pixel data after the conversion.
pub open spec fn plan_data(plan: Plan, data: Seq<u8>) -> Seq<u8> {
    match plan {
        Some((_, k, pattern)) => remap(data, k, pattern),
        None => data,
    }
}

/// `add_alpha`: an opaque alpha sample (one byte, or two at 16 bits) after each pixel.
pub open spec fn alpha_plan(t: ImageType) -> Plan {
    match t {
        ImageType::R8 => Some((ImageType::Ra8, 1, seq![PixelByte::Source(0), PixelByte::Opaque])),
        ImageType::R16 => Some(
            (
                ImageType::Ra16,
                2,
                seq![
                    PixelByte::Source(0),
                    PixelByte::Source(1),
                    PixelByte::Opaque,
                    PixelByte::Opaque,
                ],
            ),
        ),
        ImageType::Rgb8 => Some(
            (
                ImageType::Rgba8,
                3,
                seq![
                    PixelByte::Source(0),
                    PixelByte::Source(1),
                    PixelByte::Source(2),
                    PixelByte::Opaque,
                ],
            ),
        ),
        ImageType::Rgb16 => Some(
            (
                ImageType::Rgba16,
                6,
                seq![
                    PixelByte::Source(0),
                    PixelByte::Source(1),
                    PixelByte::Source(2),
                    PixelByte::Source(3),
                    PixelByte::Source(4),
                    PixelByte::Source(5),
                    PixelByte::Opaque,
                    PixelByte::Opaque,
                ],
            ),
        ),
        _ => None,
    }
}

/// `strip_alpha`: the trailing alpha sample of each pixel is dropped.
pub open spec fn strip_plan(t: ImageType) -> Plan {
    match t {
        ImageType::Ra8 => Some((ImageType::R8, 2, seq![PixelByte::Source(0)])),
        ImageType::Ra16 => Some(
            (ImageType::R16, 4, seq![PixelByte::Source(0), PixelByte::Source(1)]),
        ),
        ImageType::Rgba8 => Some(
            (
                ImageType::Rgb8,
                4,
                seq![PixelByte::Source(0), PixelByte::Source(1), PixelByte::Source(2)],
            ),
        ),
        ImageType::Rgba16 => Some(
            (
                ImageType::Rgb16,
                8,
                seq![
                    PixelByte::Source(0),
                    PixelByte::Source(1),
                    PixelByte::Source(2),
                    PixelByte::Source(3),
                    PixelByte::Source(4),
                    PixelByte::Source(5),
                ],
            ),
        ),
        _ => None,
    }
}

/// `add_channels`: the grey sample is repeated as red, green and blue.
pub open spec fn channels_plan(t: ImageType) -> Plan {
    match t {
        ImageType::R8 => Some(
            (
                ImageType::Rgb8,
                1,
                seq![PixelByte::Source(0), PixelByte::Source(0), PixelByte::Source(0)],
            ),
        ),
        ImageType::R16 => Some(
            (
                ImageType::Rgb16,
                2,
                seq![
                    PixelByte::Source(0),
                    PixelByte::Source(1),
                    PixelByte::Source(0),
                    PixelByte::Source(1),
                    PixelByte::Source(0),
                    PixelByte::Source(1),
                ],
            ),
        ),
        ImageType::Ra8 => Some(
            (
                ImageType::Rgba8,
                2,
                seq![
                    PixelByte::Source(0),
                    PixelByte::Source(0),
                    PixelByte::Source(0),
                    PixelByte::Source(1),
                ],
            ),
        ),
        ImageType::Ra16 => Some(
            (
                ImageType::Rgba16,
                4,
                seq![
                    PixelByte::Source(0),
                    PixelByte::Source(1),
                    PixelByte::Source(0),
                    PixelByte::Source(1),
                    PixelByte::Source(0),
                    PixelByte::Source(1),
                    PixelByte::Source(2),
                    PixelByte::Source(3),
                ],
            ),
        ),
        _ => None,
    }
}

/// The image after `plan`: type and data rewritten, dimensions kept.
pub open spec fn converted(old: Image, new: Image, plan: Plan) -> bool {
    &&& new.width == old.width
    &&& new.height == old.height
    &&& new.img_type == plan_type(plan, old.img_type)
    &&& new.data@ == plan_data(plan, old.data@)
}

impl Image {
    fn convert(&mut self, target: ImageType, k: usize, pattern: &[PixelByte])
        requires
            remap_safe(old(self).data@.len(), k as nat, pattern@),
        ensures
            converted(*old(self), *final(self), Some((target, k as nat, pattern@))),
    {
        self.data = remap_pixels(&self.data, k, pattern);
        self.img_type = target;
    }

    ///Adds an alpha channel to the image, does nothing if the image already contains an alpha channel
    pub fn add_alpha(&mut self)
        requires
            plan_safe(alpha_plan(old(self).img_type), old(self).data@.len()),
        ensures
            converted(*old(self), *final(self), alpha_plan(old(self).img_type)),
    {
        match self.img_type {
            ImageType::R8 => {
                let p = [PixelByte::Source(0), PixelByte::Opaque];
                assert(p@ =~= seq![PixelByte::Source(0), PixelByte::Opaque]);
                self.convert(ImageType::Ra8, 1, &p);
            },
            ImageType::R16 => {
                let p = [PixelByte::Source(0), PixelByte::Source(1), PixelByte::Opaque, PixelByte::Opaque];
                assert(p@ =~= seq![PixelByte::Source(0), PixelByte::Source(1), PixelByte::Opaque, PixelByte::Opaque]);
                self.convert(ImageType::Ra16, 2, &p);
            },
            ImageType::Rgb8 => {
                let p = [PixelByte::Source(0), PixelByte::Source(1), PixelByte::Source(2), PixelByte::Opaque];
                assert(p@ =~= seq![PixelByte::Source(0), PixelByte::Source(1), PixelByte::Source(2), PixelByte::Opaque]);
                self.convert(ImageType::Rgba8, 3, &p);
            },
            ImageType::Rgb16 => {
                let p = [PixelByte::Source(0), PixelByte::Source(1), PixelByte::Source(2), PixelByte::Source(3), PixelByte::Source(4), PixelByte::Source(5), PixelByte::Opaque, PixelByte::Opaque];
                assert(p@ =~= seq![PixelByte::Source(0), PixelByte::Source(1), PixelByte::Source(2), PixelByte::Source(3), PixelByte::Source(4), PixelByte::Source(5), PixelByte::Opaque, PixelByte::Opaque]);
                self.convert(ImageType::Rgba16, 6, &p);
            },
            _ => {},
        }
    }

    ///Removes the alpha channel from an image
    pub fn strip_alpha(&mut self)
        requires
            plan_safe(strip_plan(old(self).img_type), old(self).data@.len()),
        ensures
            converted(*old(self), *final(self), strip_plan(old(self).img_type)),
    {
        match self.img_type {
            ImageType::Ra8 => {
                let p = [PixelByte::Source(0)];
                assert(p@ =~= seq![PixelByte::Source(0)]);
                self.convert(ImageType::R8, 2, &p);
            },
            ImageType::Ra16 => {
                let p = [PixelByte::Source(0), PixelByte::Source(1)];
                assert(p@ =~= seq![PixelByte::Source(0), PixelByte::Source(1)]);
                self.convert(ImageType::R16, 4, &p);
            },
            ImageType::Rgba8 => {
                let p = [PixelByte::Source(0), PixelByte::Source(1), PixelByte::Source(2)];
                assert(p@ =~= seq![PixelByte::Source(0), PixelByte::Source(1), PixelByte::Source(2)]);
                self.convert(ImageType::Rgb8, 4, &p);
            },
            ImageType::Rgba16 => {
                let p = [PixelByte::Source(0), PixelByte::Source(1), PixelByte::Source(2), PixelByte::Source(3), PixelByte::Source(4), PixelByte::Source(5)];
                assert(p@ =~= seq![PixelByte::Source(0), PixelByte::Source(1), PixelByte::Source(2), PixelByte::Source(3), PixelByte::Source(4), PixelByte::Source(5)]);
                self.convert(ImageType::Rgb16, 8, &p);
            },
            _ => {},
        }
    }

    ///Adds channels to a grayscale image. Does nothing if the image is not grayscale
    pub fn add_channels(&mut self)
        requires
            plan_safe(channels_plan(old(self).img_type), old(self).data@.len()),
        ensures
            converted(*old(self), *final(self), channels_plan(old(self).img_type)),
    {
        match self.img_type {
            ImageType::R8 => {
                let p = [PixelByte::Source(0), PixelByte::Source(0), PixelByte::Source(0)];
                assert(p@ =~= seq![PixelByte::Source(0), PixelByte::Source(0), PixelByte::Source(0)]);
                self.convert(ImageType::Rgb8, 1, &p);
            },
            ImageType::R16 => {
                let p = [PixelByte::Source(0), PixelByte::Source(1), PixelByte::Source(0), PixelByte::Source(1), PixelByte::Source(0), PixelByte::Source(1)];
                assert(p@ =~= seq![PixelByte::Source(0), PixelByte::Source(1), PixelByte::Source(0), PixelByte::Source(1), PixelByte::Source(0), PixelByte::Source(1)]);
                self.convert(ImageType::Rgb16, 2, &p);
            },
            ImageType::Ra8 => {
                let p = [PixelByte::Source(0), PixelByte::Source(0), PixelByte::Source(0), PixelByte::Source(1)];
                assert(p@ =~= seq![PixelByte::Source(0), PixelByte::Source(0), PixelByte::Source(0), PixelByte::Source(1)]);
                self.convert(ImageType::Rgba8, 2, &p);
            },
            ImageType::Ra16 => {
                let p = [PixelByte::Source(0), PixelByte::Source(1), PixelByte::Source(0), PixelByte::Source(1), PixelByte::Source(0), PixelByte::Source(1), PixelByte::Source(2), PixelByte::Source(3)];
                assert(p@ =~= seq![PixelByte::Source(0), PixelByte::Source(1), PixelByte::Source(0), PixelByte::Source(1), PixelByte::Source(0), PixelByte::Source(1), PixelByte::Source(2), PixelByte::Source(3)]);
                self.convert(ImageType::Rgba16, 4, &p);
            },
            _ => {},
        }
    }
}


/// Number of bytes one pixel of type `t` takes.
pub open spec fn bytes_per_pixel(t: ImageType) -> nat {
    match t {
        ImageType::R8 => 1,
        ImageType::R16 => 2,
        ImageType::Ra8 => 2,
        ImageType::Ra16 => 4,
        ImageType::Rgb8 => 3,
        ImageType::Rgba8 => 4,
        ImageType::Rgb16 => 6,
        ImageType::Rgba16 => 8,
    }
}

/// The image data is made of whole pixels.
pub open spec fn whole_pixels(img: Image) -> bool {
    img.data@.len() % bytes_per_pixel(img.img_type) == 0
}

/// The pattern that keeps a `k`-byte pixel as it is.
pub open spec fn identity_pattern(k: nat) -> Seq<PixelByte> {
    Seq::new(k, |i: int| PixelByte::Source(i as usize))
}

/// The pattern that applies `p` and then `q`.
pub open spec fn compose(p: Seq<PixelByte>, q: Seq<PixelByte>) -> Seq<PixelByte> {
    Seq::new(
        q.len(),
        |j: int|
            match q[j] {
                PixelByte::Source(i) => p[i as int],
                PixelByte::Opaque => PixelByte::Opaque,
            },
    )
}

proof fn lemma_plan_shape(plan: Plan, t: ImageType)
    requires
        plan == alpha_plan(t) || plan == strip_plan(t) || plan == channels_plan(t),
    ensures
        plan matches Some((t2, k, p)) ==> {
            &&& k == bytes_per_pixel(t)
            &&& p.len() == bytes_per_pixel(t2)
            &&& reads_within(p, k)
        },
{
    if let Some((_, k, p)) = plan {
        assert forall|j: int| 0 <= j < p.len() implies match #[trigger] p[j] {
            PixelByte::Source(i) => i < k,
            PixelByte::Opaque => true,
        } by {
            assert(0 <= j < 8);
        }
    }
}

proof fn lemma_apply_compose(x: Seq<u8>, p: Seq<PixelByte>, q: Seq<PixelByte>)
    requires
        reads_within(q, p.len()),
    ensures
        apply_pattern(apply_pattern(x, p), q) == apply_pattern(x, compose(p, q)),
{
    let lhs = apply_pattern(apply_pattern(x, p), q);
    let rhs = apply_pattern(x, compose(p, q));
    assert forall|j: int| 0 <= j < q.len() implies lhs[j] == rhs[j] by {
        assert(0 <= j < q.len());
    }
    assert(lhs =~= rhs);
}

proof fn lemma_remap_len(d: Seq<u8>, k: nat, p: Seq<PixelByte>, n: nat)
    requires
        k > 0,
        d.len() == n * k,
    ensures
        remap(d, k, p).len() == n * p.len(),
    decreases n,
{
    if n == 0 {
        assert(d.len() == 0) by (nonlinear_arith)
            requires
                d.len() == n * k,
                n == 0,
        ;
    } else if n == 1 {
        assert(d.len() == k && n * p.len() == p.len()) by (nonlinear_arith)
            requires
                d.len() == n * k,
                n == 1,
        ;
    } else {
        assert(d.len() > k && d.len() - k == (n - 1) * k) by (nonlinear_arith)
            requires
                d.len() == n * k,
                n >= 2,
                k > 0,
        ;
        lemma_remap_len(d.skip(k as int), k, p, (n - 1) as nat);
        assert(p.len() + (n - 1) * p.len() == n * p.len()) by (nonlinear_arith);
    }
}

proof fn lemma_remap_compose(d: Seq<u8>, k: nat, p: Seq<PixelByte>, q: Seq<PixelByte>, n: nat)
    requires
        k > 0,
        d.len() == n * k,
        p.len() > 0,
        reads_within(q, p.len()),
    ensures
        remap(remap(d, k, p), p.len(), q) == remap(d, k, compose(p, q)),
    decreases n,
{
    let m = p.len();
    if n == 0 {
        assert(d.len() == 0) by (nonlinear_arith)
            requires
                d.len() == n * k,
                n == 0,
        ;
    } else if n == 1 {
        assert(d.len() == k) by (nonlinear_arith)
            requires
                d.len() == n * k,
                n == 1,
        ;
        lemma_apply_compose(d, p, q);
    } else {
        assert(d.len() > k && d.len() - k == (n - 1) * k) by (nonlinear_arith)
            requires
                d.len() == n * k,
                n >= 2,
                k > 0,
        ;
        let a = apply_pattern(d.take(k as int), p);
        let r = remap(d.skip(k as int), k, p);
        lemma_remap_len(d.skip(k as int), k, p, (n - 1) as nat);
        assert(r.len() > 0) by (nonlinear_arith)
            requires
                r.len() == (n - 1) * m,
                n >= 2,
                m > 0,
        ;
        let ar = a + r;
        assert(remap(d, k, p) == ar);
        assert(ar.take(m as int) =~= a);
        assert(ar.skip(m as int) =~= r);
        lemma_remap_compose(d.skip(k as int), k, p, q, (n - 1) as nat);
        lemma_apply_compose(d.take(k as int), p, q);
    }
}

proof fn lemma_remap_identity(d: Seq<u8>, k: nat, n: nat)
    requires
        0 < k <= 8,
        d.len() == n * k,
    ensures
        remap(d, k, identity_pattern(k)) == d,
    decreases n,
{
    if n == 0 {
        assert(d.len() == 0) by (nonlinear_arith)
            requires
                d.len() == n * k,
                n == 0,
        ;
        assert(d =~= Seq::<u8>::empty());
    } else {
        assert(d.len() >= k && d.len() - k == (n - 1) * k) by (nonlinear_arith)
            requires
                d.len() == n * k,
                n >= 1,
                k > 0,
        ;
        let x = d.take(k as int);
        assert forall|i: int| 0 <= i < k implies apply_pattern(x, identity_pattern(k))[i] == x[i] by {
            assert(identity_pattern(k)[i] == PixelByte::Source(i as usize));
        }
        assert(apply_pattern(x, identity_pattern(k)) =~= x);
        if n == 1 {
            assert(d.len() == k) by (nonlinear_arith)
                requires
                    d.len() == n * k,
                    n == 1,
            ;
            assert(x =~= d);
        } else {
            lemma_remap_identity(d.skip(k as int), k, (n - 1) as nat);
            assert(x + d.skip(k as int) =~= d);
        }
    }
}

/// The number of whole pixels in `len` bytes of `k`-byte pixels.
proof fn lemma_pixel_count(len: nat, k: nat) -> (n: nat)
    requires
        k > 0,
        len % k == 0,
    ensures
        len == n * k,
{
    vstd::arithmetic::div_mod::lemma_fundamental_div_mod(len as int, k as int);
    assert(k * (len / k) == (len / k) * k) by (nonlinear_arith);
    len / k
}

proof fn lemma_whole_result(plan: Plan, img: Image, new: Image)
    requires
        plan == alpha_plan(img.img_type) || plan == strip_plan(img.img_type) || plan
            == channels_plan(img.img_type),
        whole_pixels(img),
        converted(img, new, plan),
    ensures
        plan_safe(plan, img.data@.len()),
        whole_pixels(new),
        new.data@.len() / bytes_per_pixel(new.img_type) == img.data@.len() / bytes_per_pixel(
            img.img_type,
        ),
{
    lemma_plan_shape(plan, img.img_type);
    let k = bytes_per_pixel(img.img_type);
    let n = lemma_pixel_count(img.data@.len(), k);
    if let Some((_, _, p)) = plan {
        lemma_remap_len(img.data@, k, p, n);
        let m = p.len();
        assert((n * m) % m == 0 && (n * m) / m == n) by (nonlinear_arith)
            requires
                m > 0,
        ;
        assert((n * k) / k == n) by (nonlinear_arith)
            requires
                k > 0,
        ;
    }
}

/// Every conversion is defined on an image made of whole pixels, gives an
/// image made of whole pixels, and keeps the number of pixels.
pub proof fn conversions_keep_pixels(img: Image, new: Image)
    requires
        whole_pixels(img),
    ensures
        plan_safe(alpha_plan(img.img_type), img.data@.len()),
        plan_safe(strip_plan(img.img_type), img.data@.len()),
        plan_safe(channels_plan(img.img_type), img.data@.len()),
        converted(img, new, alpha_plan(img.img_type)) || converted(
            img,
            new,
            strip_plan(img.img_type),
        ) || converted(img, new, channels_plan(img.img_type)) ==> {
            &&& whole_pixels(new)
            &&& new.data@.len() / bytes_per_pixel(new.img_type) == img.data@.len()
                / bytes_per_pixel(img.img_type)
        },
{
    lemma_plan_shape(alpha_plan(img.img_type), img.img_type);
    lemma_plan_shape(strip_plan(img.img_type), img.img_type);
    lemma_plan_shape(channels_plan(img.img_type), img.img_type);
    if converted(img, new, alpha_plan(img.img_type)) {
        lemma_whole_result(alpha_plan(img.img_type), img, new);
    } else if converted(img, new, strip_plan(img.img_type)) {
        lemma_whole_result(strip_plan(img.img_type), img, new);
    } else if converted(img, new, channels_plan(img.img_type)) {
        lemma_whole_result(channels_plan(img.img_type), img, new);
    }
}

/// Removing the alpha channel that `add_alpha` added gives back the original
/// image.
pub proof fn strip_alpha_undoes_add_alpha(before: Image, with_alpha: Image, after: Image)
    requires
        whole_pixels(before),
        alpha_plan(before.img_type) is Some,
        converted(before, with_alpha, alpha_plan(before.img_type)),
        converted(with_alpha, after, strip_plan(with_alpha.img_type)),
    ensures
        after.img_type == before.img_type,
        after.data@ == before.data@,
        after.width == before.width,
        after.height == before.height,
{
    let t = before.img_type;
    lemma_plan_shape(alpha_plan(t), t);
    let k = bytes_per_pixel(t);
    let n = lemma_pixel_count(before.data@.len(), k);
    if let Some((t2, _, p)) = alpha_plan(t) {
        if let Some((_, _, q)) = strip_plan(t2) {
            assert(compose(p, q) =~= identity_pattern(k));
            lemma_remap_compose(before.data@, k, p, q, n);
            lemma_remap_identity(before.data@, k, n);
        }
    }
}

/// After `add_alpha` the image has an alpha channel, so a second
/// `add_alpha` leaves it as it is.
pub proof fn add_alpha_is_idempotent(before: Image, after: Image)
    requires
        converted(before, after, alpha_plan(before.img_type)),
    ensures
        alpha_plan(after.img_type) is None,
{
}

/// Adding an alpha channel and adding color channels give the same image in
/// either order.
pub proof fn add_alpha_and_add_channels_commute(
    img: Image,
    a1: Image,
    b1: Image,
    a2: Image,
    b2: Image,
)
    requires
        whole_pixels(img),
        converted(img, a1, alpha_plan(img.img_type)),
        converted(a1, b1, channels_plan(a1.img_type)),
        converted(img, a2, channels_plan(img.img_type)),
        converted(a2, b2, alpha_plan(a2.img_type)),
    ensures
        b1.img_type == b2.img_type,
        b1.data@ == b2.data@,
{
    let t = img.img_type;
    let k = bytes_per_pixel(t);
    let n = lemma_pixel_count(img.data@.len(), k);
    lemma_plan_shape(alpha_plan(t), t);
    lemma_plan_shape(channels_plan(t), t);
    match t {
        ImageType::R8 | ImageType::R16 => {
            let (ta, _, pa) = alpha_plan(t)->Some_0;
            let (tc, _, pc) = channels_plan(t)->Some_0;
            let (_, _, qc) = channels_plan(ta)->Some_0;
            let (_, _, qa) = alpha_plan(tc)->Some_0;
            lemma_remap_compose(img.data@, k, pa, qc, n);
            lemma_remap_compose(img.data@, k, pc, qa, n);
            assert(compose(pa, qc) =~= compose(pc, qa));
        },
        _ => {},
    }
}


proof fn lemma_remap_index(d: Seq<u8>, k: nat, pat: Seq<PixelByte>, n: nat, p: nat, j: int)
    requires
        k > 0,
        d.len() == n * k,
        p < n,
        0 <= j < pat.len(),
    ensures
        p * pat.len() + j < remap(d, k, pat).len(),
        remap(d, k, pat)[p * pat.len() + j] == pixel_byte_value(
            d.subrange((p * k) as int, (p * k + k) as int),
            pat[j],
        ),
    decreases n,
{
    let m = pat.len();
    lemma_remap_len(d, k, pat, n);
    assert(p * m + j < n * m) by (nonlinear_arith)
        requires
            p < n,
            0 <= j < m,
    ;
    if n == 1 {
        assert(d.len() == k && p == 0) by (nonlinear_arith)
            requires
                d.len() == n * k,
                n == 1,
                p < n,
        ;
        assert(d.subrange(0, k as int) =~= d);
    } else {
        assert(d.len() > k && d.len() - k == (n - 1) * k) by (nonlinear_arith)
            requires
                d.len() == n * k,
                n >= 2,
                k > 0,
        ;
        let x = d.take(k as int);
        let r = remap(d.skip(k as int), k, pat);
        assert(remap(d, k, pat) == apply_pattern(x, pat) + r);
        if p == 0 {
            assert(d.subrange(0, k as int) =~= x);
        } else {
            assert(p * m + j - m == (p - 1) * m + j && p * k == k + (p - 1) * k && p * k + k
                <= d.len()) by (nonlinear_arith)
                requires
                    p >= 1,
                    p < n,
                    d.len() == n * k,
            ;
            lemma_remap_index(d.skip(k as int), k, pat, (n - 1) as nat, (p - 1) as nat, j);
            assert(d.skip(k as int).subrange((p - 1) * k, (p - 1) * k + k) =~= d.subrange(
                (p * k) as int,
                (p * k + k) as int,
            ));
        }
    }
}

/// Where the `p`-th pixel of `img` lies in its data, it is a whole pixel of a
/// whole-pixel image: the pixel index is below the pixel count.
proof fn lemma_pixel_in_range(img: Image, p: nat) -> (n: nat)
    requires
        whole_pixels(img),
        (p + 1) * bytes_per_pixel(img.img_type) <= img.data@.len(),
    ensures
        img.data@.len() == n * bytes_per_pixel(img.img_type),
        p < n,
{
    let k = bytes_per_pixel(img.img_type);
    let n = lemma_pixel_count(img.data@.len(), k);
    assert(p < n) by (nonlinear_arith)
        requires
            (p + 1) * k <= n * k,
            k > 0,
    ;
    n
}

/// `add_alpha` keeps the samples of each pixel and follows them with an
/// opaque (all ones) alpha sample.
pub proof fn add_alpha_appends_opaque_alpha(img: Image, new: Image, p: nat, j: int)
    requires
        whole_pixels(img),
        alpha_plan(img.img_type) is Some,
        converted(img, new, alpha_plan(img.img_type)),
        (p + 1) * bytes_per_pixel(img.img_type) <= img.data@.len(),
        0 <= j < bytes_per_pixel(new.img_type),
    ensures
        ({
            let k = bytes_per_pixel(img.img_type);
            let m = bytes_per_pixel(new.img_type);
            &&& p * m + j < new.data@.len()
            &&& new.data@[p * m + j] == if j < k {
                img.data@[p * k + j]
            } else {
                0xffu8
            }
        }),
{
    let t = img.img_type;
    lemma_plan_shape(alpha_plan(t), t);
    let n = lemma_pixel_in_range(img, p);
    let (_, k, pat) = alpha_plan(t)->Some_0;
    lemma_remap_index(img.data@, k, pat, n, p, j);
    let sub = img.data@.subrange((p * k) as int, (p * k + k) as int);
    assert(p * k + k <= img.data@.len()) by (nonlinear_arith)
        requires
            (p + 1) * k <= img.data@.len(),
    ;
    if j == 0 {
    } else if j == 1 {
    } else if j == 2 {
    } else if j == 3 {
    } else if j == 4 {
    } else if j == 5 {
    } else if j == 6 {
    } else {
    }
}

/// `strip_alpha` keeps the samples of each pixel but its last (alpha) one.
pub proof fn strip_alpha_keeps_color_samples(img: Image, new: Image, p: nat, j: int)
    requires
        whole_pixels(img),
        strip_plan(img.img_type) is Some,
        converted(img, new, strip_plan(img.img_type)),
        (p + 1) * bytes_per_pixel(img.img_type) <= img.data@.len(),
        0 <= j < bytes_per_pixel(new.img_type),
    ensures
        ({
            let k = bytes_per_pixel(img.img_type);
            let m = bytes_per_pixel(new.img_type);
            &&& p * m + j < new.data@.len()
            &&& new.data@[p * m + j] == img.data@[p * k + j]
        }),
{
    let t = img.img_type;
    lemma_plan_shape(strip_plan(t), t);
    let n = lemma_pixel_in_range(img, p);
    let (_, k, pat) = strip_plan(t)->Some_0;
    lemma_remap_index(img.data@, k, pat, n, p, j);
    let sub = img.data@.subrange((p * k) as int, (p * k + k) as int);
    assert(p * k + k <= img.data@.len()) by (nonlinear_arith)
        requires
            (p + 1) * k <= img.data@.len(),
    ;
    if j == 0 {
    } else if j == 1 {
    } else if j == 2 {
    } else if j == 3 {
    } else if j == 4 {
    } else if j == 5 {
    } else if j == 6 {
    } else {
    }
}

/// `add_channels` repeats the grey sample (`s` bytes: 1, or 2 at 16 bits) as
/// red, green and blue, and keeps the alpha sample after them.
pub proof fn add_channels_repeats_grey(img: Image, new: Image, p: nat, j: int)
    requires
        whole_pixels(img),
        channels_plan(img.img_type) is Some,
        converted(img, new, channels_plan(img.img_type)),
        (p + 1) * bytes_per_pixel(img.img_type) <= img.data@.len(),
        0 <= j < bytes_per_pixel(new.img_type),
    ensures
        ({
            let k = bytes_per_pixel(img.img_type);
            let m = bytes_per_pixel(new.img_type);
            let s: int = if img.img_type == ImageType::R16 || img.img_type == ImageType::Ra16 {
                2
            } else {
                1
            };
            &&& p * m + j < new.data@.len()
            &&& new.data@[p * m + j] == if j < 3 * s {
                img.data@[p * k + j % s]
            } else {
                img.data@[p * k + j - 2 * s]
            }
        }),
{
    let t = img.img_type;
    lemma_plan_shape(channels_plan(t), t);
    let n = lemma_pixel_in_range(img, p);
    let (_, k, pat) = channels_plan(t)->Some_0;
    lemma_remap_index(img.data@, k, pat, n, p, j);
    let sub = img.data@.subrange((p * k) as int, (p * k + k) as int);
    assert(p * k + k <= img.data@.len()) by (nonlinear_arith)
        requires
            (p + 1) * k <= img.data@.len(),
    ;
    if j == 0 {
    } else if j == 1 {
    } else if j == 2 {
    } else if j == 3 {
    } else if j == 4 {
    } else if j == 5 {
    } else if j == 6 {
    } else {
    }
}
} // verus!
