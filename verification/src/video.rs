//! Plain types and helpers shared by the codecs and the converter.

use vstd::prelude::*;

verus! {

/// A video codec.
#[derive(Clone, Copy, Debug, PartialEq, Eq, Structural)]
pub enum Codec {
    H264,
    H265,
    AV1,
}

impl Codec {
    /// The name of the codec.
    pub open spec fn label(self) -> Seq<char> {
        match self {
            Codec::H264 => "H264"@,
            Codec::H265 => "H265"@,
            Codec::AV1 => "AV1"@,
        }
    }

    /// The name of the codec.
    pub fn name(&self) -> (name: &'static str)
        ensures
            name@ == self.label(),
    {
        match *self {
            Codec::H264 => "H264",
            Codec::H265 => "H265",
            Codec::AV1 => "AV1",
        }
    }
}

/// Bits per sample of a picture.
#[derive(Clone, Copy, Debug, PartialEq, Eq, Structural)]
pub enum BitDepth {
    Eight,
    Ten,
}

/// Chroma subsampling of a picture.
#[derive(Clone, Copy, Debug, PartialEq, Eq, Structural)]
pub enum PixelFormat {
    Yuv420,
    Yuv422,
    Yuv444,
}

impl PixelFormat {
    /// Horizontal and vertical chroma subsampling.
    pub open spec fn divisors(self) -> (u32, u32) {
        match self {
            PixelFormat::Yuv420 => (2, 2),
            PixelFormat::Yuv422 => (2, 1),
            PixelFormat::Yuv444 => (1, 1),
        }
    }

    /// How many luma samples one chroma sample covers, horizontally and
    /// vertically.
    pub fn chroma_div(&self) -> (div: (u32, u32))
        ensures
            div == self.divisors(),
    {
        match *self {
            PixelFormat::Yuv420 => (2, 2),
            PixelFormat::Yuv422 => (2, 1),
            PixelFormat::Yuv444 => (1, 1),
        }
    }
}

/// `VK_FORMAT_R8_UNORM`.
pub const FORMAT_R8: i32 = 9;

/// `VK_FORMAT_R8G8_UNORM`.
pub const FORMAT_R8G8: i32 = 16;

/// `VK_FORMAT_R10X6_UNORM_PACK16`.
pub const FORMAT_R10: i32 = 1_000_156_007;

/// `VK_FORMAT_R10X6G10X6_UNORM_2PACK16`.
pub const FORMAT_R10G10: i32 = 1_000_156_008;

/// `VK_FORMAT_G8_B8_R8_3PLANE_420_UNORM`.
pub const FORMAT_3PLANE_420_8BIT: i32 = 1_000_156_002;

/// `VK_FORMAT_G8_B8R8_2PLANE_420_UNORM`.
pub const FORMAT_2PLANE_420_8BIT: i32 = 1_000_156_003;

/// `VK_FORMAT_G10X6_B10X6R10X6_2PLANE_420_UNORM_3PACK16`.
pub const FORMAT_2PLANE_420_10BIT: i32 = 1_000_156_013;

/// `VK_FORMAT_G8_B8R8_2PLANE_444_UNORM`.
pub const FORMAT_2PLANE_444_8BIT: i32 = 1_000_330_000;

/// `VK_FORMAT_G10X6_B10X6R10X6_2PLANE_444_UNORM_3PACK16`.
pub const FORMAT_2PLANE_444_10BIT: i32 = 1_000_330_001;

/// `VK_FORMAT_G8_B8R8_2PLANE_422_UNORM`.
pub const FORMAT_2PLANE_422_8BIT: i32 = 1_000_156_005;

/// `VK_FORMAT_G10X6_B10X6R10X6_2PLANE_422_UNORM_3PACK16`.
pub const FORMAT_2PLANE_422_10BIT: i32 = 1_000_156_015;

/// The format of pictures with a luma plane and a plane of interleaved chroma.
pub open spec fn two_plane_format(pixel_format: PixelFormat, bit_depth: BitDepth) -> i32 {
    if bit_depth is Eight {
        match pixel_format {
            PixelFormat::Yuv420 => FORMAT_2PLANE_420_8BIT,
            PixelFormat::Yuv422 => FORMAT_2PLANE_422_8BIT,
            PixelFormat::Yuv444 => FORMAT_2PLANE_444_8BIT,
        }
    } else {
        match pixel_format {
            PixelFormat::Yuv420 => FORMAT_2PLANE_420_10BIT,
            PixelFormat::Yuv422 => FORMAT_2PLANE_422_10BIT,
            PixelFormat::Yuv444 => FORMAT_2PLANE_444_10BIT,
        }
    }
}

/// The formats of the single planes of such a format, one or two samples a texel.
pub open spec fn views_of(format: i32) -> Option<(i32, i32)> {
    if exists|pixel_format: PixelFormat|
        format == #[trigger] two_plane_format(pixel_format, BitDepth::Eight) {
        Some((FORMAT_R8, FORMAT_R8G8))
    } else if exists|pixel_format: PixelFormat|
        format == #[trigger] two_plane_format(pixel_format, BitDepth::Ten) {
        Some((FORMAT_R10, FORMAT_R10G10))
    } else {
        None
    }
}

/// The two-plane Vulkan format of pictures.
pub fn get_video_format(pixel_format: PixelFormat, bit_depth: BitDepth) -> (format: i32)
    ensures
        format == match (pixel_format, bit_depth) {
            (PixelFormat::Yuv420, BitDepth::Eight) => FORMAT_2PLANE_420_8BIT,
            (PixelFormat::Yuv420, BitDepth::Ten) => FORMAT_2PLANE_420_10BIT,
            (PixelFormat::Yuv422, BitDepth::Eight) => FORMAT_2PLANE_422_8BIT,
            (PixelFormat::Yuv422, BitDepth::Ten) => FORMAT_2PLANE_422_10BIT,
            (PixelFormat::Yuv444, BitDepth::Eight) => FORMAT_2PLANE_444_8BIT,
            (PixelFormat::Yuv444, BitDepth::Ten) => FORMAT_2PLANE_444_10BIT,
        },
        format == two_plane_format(pixel_format, bit_depth),
{
    match (pixel_format, bit_depth) {
        (PixelFormat::Yuv420, BitDepth::Eight) => FORMAT_2PLANE_420_8BIT,
        (PixelFormat::Yuv420, BitDepth::Ten) => FORMAT_2PLANE_420_10BIT,
        (PixelFormat::Yuv422, BitDepth::Eight) => FORMAT_2PLANE_422_8BIT,
        (PixelFormat::Yuv422, BitDepth::Ten) => FORMAT_2PLANE_422_10BIT,
        (PixelFormat::Yuv444, BitDepth::Eight) => FORMAT_2PLANE_444_8BIT,
        (PixelFormat::Yuv444, BitDepth::Ten) => FORMAT_2PLANE_444_10BIT,
    }
}

/// The formats that single planes of a two-plane picture can be viewed as, where
/// there are such: luma, then chroma.
pub fn plane_view_formats(format: i32) -> (views: Option<(i32, i32)>)
    ensures
        views == if format == FORMAT_2PLANE_420_8BIT || format == FORMAT_2PLANE_422_8BIT || format
            == FORMAT_2PLANE_444_8BIT {
            Some((FORMAT_R8, FORMAT_R8G8))
        } else if format == FORMAT_2PLANE_420_10BIT || format == FORMAT_2PLANE_422_10BIT || format
            == FORMAT_2PLANE_444_10BIT {
            Some((FORMAT_R10, FORMAT_R10G10))
        } else {
            None
        },
        views == views_of(format),
{
    proof {
        lemma_two_plane_formats();
    }
    if format == FORMAT_2PLANE_420_8BIT || format == FORMAT_2PLANE_422_8BIT || format
        == FORMAT_2PLANE_444_8BIT {
        Some((FORMAT_R8, FORMAT_R8G8))
    } else if format == FORMAT_2PLANE_420_10BIT || format == FORMAT_2PLANE_422_10BIT || format
        == FORMAT_2PLANE_444_10BIT {
        Some((FORMAT_R10, FORMAT_R10G10))
    } else {
        None
    }
}

/// Whether memory type `i` is allowed by `type_bits` and has all of `required`.
pub open spec fn memory_type_suits(types: Seq<u32>, type_bits: u32, required: u32, i: int) -> bool {
    type_bits & (1u32 << (i as u32)) != 0 && types[i] & required == required
}

/// The first memory type, by index, that is allowed by `type_bits` and has all of
/// the required properties. `types` holds the properties of each.
pub fn find_memory_type(types: &[u32], type_bits: u32, required: u32) -> (found: Option<u32>)
    requires
        types@.len() <= 32,
    ensures
        match found {
            Some(found) => {
                &&& found < types@.len()
                &&& memory_type_suits(types@, type_bits, required, found as int)
                &&& forall|i: int|
                    0 <= i < found ==> !#[trigger] memory_type_suits(types@, type_bits, required, i)
            },
            None => forall|i: int|
                0 <= i < types@.len() ==> !#[trigger] memory_type_suits(
                    types@,
                    type_bits,
                    required,
                    i,
                ),
        },
{
    let mut i: u32 = 0;
    while (i as usize) < types.len()
        invariant
            i <= types@.len() <= 32,
            forall|k: int|
                0 <= k < i ==> !#[trigger] memory_type_suits(types@, type_bits, required, k),
        decreases types@.len() - i,
    {
        if type_bits & (1u32 << i) != 0 && types[i as usize] & required == required {
            return Some(i);
        }
        i = i + 1;
    }
    None
}

/// The values of a list in order, each where it first occurs.
pub open spec fn first_occurrences(list: Seq<u32>) -> Seq<u32>
    decreases list.len(),
{
    if list.len() == 0 {
        list
    } else if list.drop_last().contains(list.last()) {
        first_occurrences(list.drop_last())
    } else {
        first_occurrences(list.drop_last()).push(list.last())
    }
}

/// The queue families of a list without repetition. An image needs to be shared
/// only where there is more than one.
pub fn distinct_families(families: &[u32]) -> (distinct: Vec<u32>)
    ensures
        distinct@ == first_occurrences(families@),
        distinct@.no_duplicates(),
        forall|family: u32| distinct@.contains(family) <==> families@.contains(family),
{
    let mut distinct: Vec<u32> = Vec::new();
    let mut i: usize = 0;
    while i < families.len()
        invariant
            i <= families@.len(),
            distinct@ == first_occurrences(families@.take(i as int)),
            distinct@.no_duplicates(),
            forall|family: u32|
                distinct@.contains(family) <==> families@.take(i as int).contains(family),
        decreases families@.len() - i,
    {
        let family: u32 = families[i];
        let mut seen = false;
        let mut k: usize = 0;
        while k < distinct.len()
            invariant
                k <= distinct@.len(),
                seen == distinct@.take(k as int).contains(family),
            decreases distinct@.len() - k,
        {
            assert(distinct@.take(k + 1) =~= distinct@.take(k as int).push(distinct@[k as int]));
            proof {
                lemma_push_contains(distinct@.take(k as int), distinct@[k as int]);
            }
            if distinct[k] == family {
                seen = true;
            }
            k = k + 1;
        }
        assert(distinct@.take(k as int) =~= distinct@);
        proof {
            assert(families@.take(i + 1) =~= families@.take(i as int).push(family));
            assert(families@.take(i + 1).drop_last() =~= families@.take(i as int));
            lemma_push_contains(families@.take(i as int), family);
            lemma_push_contains(distinct@, family);
        }
        if !seen {
            distinct.push(family);
        }
        i = i + 1;
    }
    assert(families@.take(i as int) =~= families@);
    distinct
}

proof fn lemma_push_contains(list: Seq<u32>, last: u32)
    ensures
        forall|x: u32| #[trigger] list.push(last).contains(x) <==> list.contains(x) || x == last,
{
    assert forall|x: u32| #[trigger] list.push(last).contains(x) <==> list.contains(x) || x
        == last by {
        if list.contains(x) {
            let i = choose|i: int| 0 <= i < list.len() && list[i] == x;
            assert(list.push(last)[i] == x);
        }
        assert(list.push(last)[list.len() as int] == last);
        if list.push(last).contains(x) {
            let i = choose|i: int| 0 <= i < list.push(last).len() && list.push(last)[i] == x;
            if i < list.len() {
                assert(list[i] == x);
            }
        }
    }
}

/// How a stream describes its colours to a player: code points of ITU-T H.273, and
/// the quantization range.
#[derive(Clone, Copy, Debug, PartialEq, Eq, Structural)]
pub struct ColorDescription {
    pub color_primaries: u8,
    pub transfer_characteristics: u8,
    pub matrix_coefficients: u8,
    /// Whether samples use the full range of codes.
    pub full_range: bool,
}

/// The H.273 code point of the PQ transfer function.
pub const TRANSFER_PQ: u8 = 16;

/// The H.273 code point of the HLG transfer function.
pub const TRANSFER_HLG: u8 = 18;

impl ColorDescription {
    /// SDR video: everything BT.709, limited range.
    pub open spec fn sdr() -> ColorDescription {
        ColorDescription {
            color_primaries: 1,
            transfer_characteristics: 1,
            matrix_coefficients: 1,
            full_range: false,
        }
    }

    /// HDR10 video: BT.2020 primaries and matrix, PQ, limited range.
    pub open spec fn hdr10() -> ColorDescription {
        ColorDescription {
            color_primaries: 9,
            transfer_characteristics: TRANSFER_PQ,
            matrix_coefficients: 9,
            full_range: false,
        }
    }

    /// SDR video: everything BT.709, limited range.
    pub fn bt709() -> (description: Self)
        ensures
            description == Self::sdr(),
    {
        ColorDescription {
            color_primaries: 1,
            transfer_characteristics: 1,
            matrix_coefficients: 1,
            full_range: false,
        }
    }

    /// HDR10 video: BT.2020 primaries and matrix, PQ, limited range.
    pub fn bt2020_pq() -> (description: Self)
        ensures
            description == Self::hdr10(),
    {
        ColorDescription {
            color_primaries: 9,
            transfer_characteristics: TRANSFER_PQ,
            matrix_coefficients: 9,
            full_range: false,
        }
    }

    /// The same colours in the given range.
    pub fn with_full_range(self, full_range: bool) -> (description: Self)
        ensures
            description == (ColorDescription { full_range, ..self }),
    {
        ColorDescription { full_range, ..self }
    }

    /// Whether the transfer function is one of HDR video.
    pub fn is_hdr(&self) -> (hdr: bool)
        ensures
            hdr == (self.transfer_characteristics == TRANSFER_PQ || self.transfer_characteristics
                == TRANSFER_HLG),
    {
        self.transfer_characteristics == TRANSFER_PQ || self.transfer_characteristics
            == TRANSFER_HLG
    }
}

/// The smallest multiple of `alignment` that is not below `value`.
pub open spec fn aligned(value: int, alignment: int) -> int {
    (value + alignment - 1) / alignment * alignment
}

/// Aligning reaches a multiple of the alignment, and passes none on the way.
pub proof fn law_aligned(value: int, alignment: int)
    requires
        alignment > 0,
    ensures
        aligned(value, alignment) % alignment == 0,
        value <= aligned(value, alignment) < value + alignment,
{
    let sum = value + alignment - 1;
    vstd::arithmetic::div_mod::lemma_fundamental_div_mod(sum, alignment);
    vstd::arithmetic::div_mod::lemma_mod_multiples_basic(sum / alignment, alignment);
    assert(alignment * (sum / alignment) == (sum / alignment) * alignment) by (nonlinear_arith);
}

/// Round `value` up to a multiple of `alignment`.
pub fn align_up(value: u32, alignment: u32) -> (r: u32)
    requires
        alignment > 0,
        aligned(value as int, alignment as int) <= u32::MAX,
    ensures
        r == aligned(value as int, alignment as int),
{
    proof {
        law_aligned(value as int, alignment as int);
    }
    let steps: u64 = (value as u64 + (alignment as u64 - 1)) / alignment as u64;
    (steps * alignment as u64) as u32
}

/// Round `n` up to a multiple of four.
pub fn align4(n: usize) -> (r: usize)
    requires
        n <= usize::MAX - 3,
    ensures
        r == aligned(n as int, 4),
{
    (n + 3) / 4 * 4
}

/// A memory type suits exactly where its bit is among those allowed and it has every
/// property that is required.
pub proof fn law_suitable_memory_has_what_is_required(
    types: Seq<u32>,
    type_bits: u32,
    required: u32,
    i: u32,
)
    requires
        i < 32,
    ensures
        memory_type_suits(types, type_bits, required, i as int) <==> (type_bits >> i) % 2 == 1
            && types[i as int] | required == types[i as int],
{
    let found = types[i as int];
    assert((type_bits & (1u32 << i) != 0) <==> (type_bits >> i) % 2 == 1) by (bit_vector)
        requires
            i < 32,
    ;
    assert((found & required == required) <==> found | required == found) by (bit_vector);
}

/// Values come in the order in which they first occur: a list without repetition
/// stays as it is, and more values only add to what there was.
pub proof fn law_first_occurrences_keep_their_order(list: Seq<u32>, value: u32)
    ensures
        list.no_duplicates() ==> first_occurrences(list) == list,
        first_occurrences(list.push(value)) == if list.contains(value) {
            first_occurrences(list)
        } else {
            first_occurrences(list).push(value)
        },
    decreases list.len(),
{
    assert(list.push(value).drop_last() =~= list);
    if list.len() > 0 {
        let part = list.drop_last();
        law_first_occurrences_keep_their_order(part, value);
        if list.no_duplicates() {
            assert forall|i: int, j: int|
                0 <= i < part.len() && 0 <= j < part.len() && i != j implies part[i] != part[j] by {
                assert(list[i] != list[j]);
            }
            if part.contains(list.last()) {
                let i = choose|i: int| 0 <= i < part.len() && part[i] == list.last();
                assert(list[i] == list[list.len() - 1]);
            }
            assert(part.push(list.last()) =~= list);
        }
    }
}

/// One chroma sample covers four luma samples at 4:2:0, two that lie side by side at
/// 4:2:2, and one at 4:4:4.
pub proof fn law_chroma_covers_luma(format: PixelFormat)
    ensures
        format.divisors().0 * format.divisors().1 == match format {
            PixelFormat::Yuv420 => 4int,
            PixelFormat::Yuv422 => 2int,
            PixelFormat::Yuv444 => 1int,
        },
        format.divisors().0 >= format.divisors().1 >= 1,
        format is Yuv420 ==> format.divisors().0 == format.divisors().1,
{
}

proof fn lemma_two_plane_formats()
    ensures
        two_plane_format(PixelFormat::Yuv420, BitDepth::Eight) == FORMAT_2PLANE_420_8BIT,
        two_plane_format(PixelFormat::Yuv422, BitDepth::Eight) == FORMAT_2PLANE_422_8BIT,
        two_plane_format(PixelFormat::Yuv444, BitDepth::Eight) == FORMAT_2PLANE_444_8BIT,
        two_plane_format(PixelFormat::Yuv420, BitDepth::Ten) == FORMAT_2PLANE_420_10BIT,
        two_plane_format(PixelFormat::Yuv422, BitDepth::Ten) == FORMAT_2PLANE_422_10BIT,
        two_plane_format(PixelFormat::Yuv444, BitDepth::Ten) == FORMAT_2PLANE_444_10BIT,
{
}

/// A format tells sampling and depth apart, and the planes of every decoded picture
/// can be viewed, with samples of as many bits as the picture has.
pub proof fn law_formats_tell_pictures_apart(
    first: PixelFormat,
    first_depth: BitDepth,
    second: PixelFormat,
    second_depth: BitDepth,
)
    ensures
        two_plane_format(first, first_depth) == two_plane_format(second, second_depth) <==> first
            == second && first_depth == second_depth,
        views_of(two_plane_format(first, BitDepth::Eight)) == Some((FORMAT_R8, FORMAT_R8G8)),
        views_of(two_plane_format(first, BitDepth::Ten)) == Some((FORMAT_R10, FORMAT_R10G10)),
{
    lemma_two_plane_formats();
}

} // verus!
