//! From samples to characters: chunking, scoring, dispatch and the four
//! conversion algorithms.

use vstd::prelude::*;
use crate::fixed::{
    clamp_sample, div_toward_zero, isqrt, root, saturate, sum_to, trunc_div, UNIT,
};
use crate::font::{lemma_font_has_area, Character, Font, MAX_AREA};
use crate::image::{
    column_pass, flat, grid_pass, laplacian, lemma_cell_of, lemma_flat_in_range, resized, row_pass,
    rows_of, LumaImage,
};
use crate::metrics::{metric_score, score_bound, sum_samples, total, Metric};
use crate::noise::{offset, NoiseSource};

verus! {

/// The ways an image is turned into characters.
#[derive(Clone, Copy, Debug, PartialEq, Eq)]
pub enum ConversionAlgorithm {
    /// Match the luminance.
    Base,
    /// Match the edges by their direction.
    Edge,
    /// Match the luminance, dimmed, with the edges laid over it.
    EdgeAugmented,
    /// Match edges and luminance apart and keep the edge character wherever
    /// it is not blank.
    TwoPass,
}

/// The ways one chunk is matched with a glyph.
#[derive(Clone, Copy, Debug, PartialEq, Eq)]
pub enum Converter {
    /// The glyph of the best score under a sample-by-sample metric.
    Score(Metric),
    /// The glyph that the font's table gives for the chunk's brightness.
    Intensity,
    /// The glyph nearest in direction, weighed down by the difference in
    /// brightness.
    DirectionAndIntensity,
    /// The glyph nearest in direction.
    Direction,
}

/// Why a chunk could not be matched.
#[derive(Clone, Copy, Debug, PartialEq, Eq)]
pub enum ConvertError {
    /// The chunk does not have one sample for each pixel of a glyph.
    MalformedChunk,
    /// The metric is undefined for the chunk and one of the glyphs.
    UndefinedScore,
    /// The picture asked for has more pixels than the machine can count.
    TooLarge,
}

fn str_same(a: &str, b: &str) -> (r: bool)
    ensures
        r == (a@ == b@),
{
    let x: String = a.to_owned();
    let y: String = b.to_owned();
    x == y
}

/// The converter that goes by a name, if the name is one.
pub open spec fn converter_named(name: Seq<char>) -> Option<Converter> {
    if name == "dot"@ {
        Some(Converter::Score(Metric::Dot))
    } else if name == "jaccard"@ {
        Some(Converter::Score(Metric::Jaccard))
    } else if name == "occlusion"@ {
        Some(Converter::Score(Metric::Occlusion))
    } else if name == "color"@ {
        Some(Converter::Score(Metric::AvgColor))
    } else if name == "clear"@ {
        Some(Converter::Score(Metric::TowardClear))
    } else if name == "fast"@ || name == "intensity"@ {
        Some(Converter::Intensity)
    } else if name == "grad"@ || name == "direction-and-intensity"@ {
        Some(Converter::DirectionAndIntensity)
    } else if name == "direction"@ {
        Some(Converter::Direction)
    } else {
        None
    }
}

/// The algorithm that goes by a name, if the name is one.
pub open spec fn algorithm_named(name: Seq<char>) -> Option<ConversionAlgorithm> {
    if name == "base"@ {
        Some(ConversionAlgorithm::Base)
    } else if name == "edge"@ {
        Some(ConversionAlgorithm::Edge)
    } else if name == "edge-augmented"@ {
        Some(ConversionAlgorithm::EdgeAugmented)
    } else if name == "two-pass"@ {
        Some(ConversionAlgorithm::TwoPass)
    } else {
        None
    }
}

/// Looks a converter up by its name.
pub fn find_converter(metric: &str) -> (r: Option<Converter>)
    ensures
        r == converter_named(metric@),
{
    if str_same(metric, "dot") {
        Some(Converter::Score(Metric::Dot))
    } else if str_same(metric, "jaccard") {
        Some(Converter::Score(Metric::Jaccard))
    } else if str_same(metric, "occlusion") {
        Some(Converter::Score(Metric::Occlusion))
    } else if str_same(metric, "color") {
        Some(Converter::Score(Metric::AvgColor))
    } else if str_same(metric, "clear") {
        Some(Converter::Score(Metric::TowardClear))
    } else if str_same(metric, "fast") || str_same(metric, "intensity") {
        Some(Converter::Intensity)
    } else if str_same(metric, "grad") || str_same(metric, "direction-and-intensity") {
        Some(Converter::DirectionAndIntensity)
    } else if str_same(metric, "direction") {
        Some(Converter::Direction)
    } else {
        None
    }
}

/// The converter of the given name, which must be one of the names of
/// `converter_named`.
pub fn get_converter(metric: &str) -> (r: Converter)
    requires
        converter_named(metric@).is_some(),
    ensures
        Some(r) == converter_named(metric@),
{
    match find_converter(metric) {
        Some(c) => c,
        None => vstd::pervasive::unreached(),
    }
}

/// Looks a conversion algorithm up by its name.
pub fn find_conversion_algorithm(algorithm: &str) -> (r: Option<ConversionAlgorithm>)
    ensures
        r == algorithm_named(algorithm@),
{
    if str_same(algorithm, "base") {
        Some(ConversionAlgorithm::Base)
    } else if str_same(algorithm, "edge") {
        Some(ConversionAlgorithm::Edge)
    } else if str_same(algorithm, "edge-augmented") {
        Some(ConversionAlgorithm::EdgeAugmented)
    } else if str_same(algorithm, "two-pass") {
        Some(ConversionAlgorithm::TwoPass)
    } else {
        None
    }
}

/// The conversion algorithm of the given name, which must be one of the
/// names of `algorithm_named`.
pub fn get_conversion_algorithm(algorithm: &str) -> (r: ConversionAlgorithm)
    requires
        algorithm_named(algorithm@).is_some(),
    ensures
        Some(r) == algorithm_named(algorithm@),
{
    match find_conversion_algorithm(algorithm) {
        Some(a) => a,
        None => vstd::pervasive::unreached(),
    }
}

/// The rise from place `i` to its right neighbour; nothing at the end of a
/// row.
pub open spec fn step_right(chunk: Seq<i32>, width: int) -> spec_fn(int) -> int {
    |i: int|
        if i % width + 1 < width {
            chunk[i + 1] - chunk[i]
        } else {
            0
        }
}

/// The rise from place `i` to the neighbour below; nothing in the last row.
pub open spec fn step_down(chunk: Seq<i32>, width: int, height: int) -> spec_fn(int) -> int {
    |i: int|
        if i + width < width * height {
            chunk[i + width] - chunk[i]
        } else {
            0
        }
}

/// The direction of the contour lines of a chunk: at right angles to its
/// gradient, which is the sum of the rises to the right and the sum of the
/// rises downward.
pub open spec fn chunk_facing(chunk: Seq<i32>, width: int, height: int) -> (int, int) {
    (
        -sum_to(step_down(chunk, width, height), width * height),
        sum_to(step_right(chunk, width), width * height),
    )
}

/// No component of a chunk's direction is larger in magnitude than this.
pub open spec fn facing_bound() -> int {
    0x7fff_fffe_8000_0001
}

fn chunk_direction(chunk: &[i32], width: usize, height: usize) -> (r: (i128, i128))
    requires
        chunk@.len() == width * height,
        width * height <= MAX_AREA,
    ensures
        r.0 == chunk_facing(chunk@, width as int, height as int).0,
        r.1 == chunk_facing(chunk@, width as int, height as int).1,
        -facing_bound() <= r.0 <= facing_bound(),
        -facing_bound() <= r.1 <= facing_bound(),
{
    let n: usize = chunk.len();
    let ghost f = step_right(chunk@, width as int);
    let ghost g = step_down(chunk@, width as int, height as int);
    let mut x_grad: i128 = 0;
    let mut y_grad: i128 = 0;
    let mut i: usize = 0;
    while i < n
        invariant
            n == chunk@.len(),
            chunk@.len() == width * height,
            width * height <= MAX_AREA,
            f == step_right(chunk@, width as int),
            g == step_down(chunk@, width as int, height as int),
            i <= n,
            x_grad == sum_to(f, i as int),
            y_grad == sum_to(g, i as int),
            -(i * 0xffff_ffff) <= x_grad <= i * 0xffff_ffff,
            -(i * 0xffff_ffff) <= y_grad <= i * 0xffff_ffff,
        decreases n - i,
    {
        proof {
            lemma_cell_of(width as int, height as int, i as int);
            if i % width + 1 < width {
                crate::image::lemma_flat_in_range(
                    width as int,
                    height as int,
                    (i % width + 1) as int,
                    (i / width) as int,
                );
            }
        }
        if i % width + 1 < width {
            x_grad = x_grad + (chunk[i + 1] as i128 - chunk[i] as i128);
        }
        if width < n - i {
            y_grad = y_grad + (chunk[i + width] as i128 - chunk[i] as i128);
        }
        i = i + 1;
    }
    proof {
        assert(n * 0xffff_ffff <= 0x7fff_fffe_8000_0001) by (nonlinear_arith)
            requires
                n <= 0x7fff_ffff,
        ;
    }
    (-y_grad, x_grad)
}

/// The square of the distance between two directions.
pub open spec fn gap_squared(a: (int, int), b: (int, int)) -> int {
    (a.0 - b.0) * (a.0 - b.0) + (a.1 - b.1) * (a.1 - b.1)
}

/// The distance between the direction of a chunk and the direction of a
/// glyph, fractions dropped.
pub open spec fn direction_gap(chunk: Seq<i32>, g: Character) -> int {
    root(
        gap_squared(
            chunk_facing(chunk, g.width as int, g.height as int),
            (g.direction.0 as int, g.direction.1 as int),
        ),
    )
}

/// The score of the direction metric: the distance, negated.
pub open spec fn direction_score(chunk: Seq<i32>, g: Character) -> int {
    -direction_gap(chunk, g)
}

/// The score of the metric of direction and brightness, in fixed point:
/// `(4·W·H − distance) / (1 + Δ²)`, where Δ is the difference between the
/// brightness of the chunk and that of the glyph.
pub open spec fn direction_and_intensity_score(chunk: Seq<i32>, g: Character) -> int {
    let reach = 4 * (g.width * g.height) * UNIT;
    let delta = total(chunk) - g.intensity;
    trunc_div(
        (reach - direction_gap(chunk, g)) * (UNIT * UNIT),
        UNIT * UNIT + delta * delta,
    )
}

/// The score of one glyph for a chunk, or `None` where the metric is
/// undefined for the two. The table lookup scores no glyph.
pub open spec fn glyph_score(converter: Converter, chunk: Seq<i32>, g: Character) -> Option<int> {
    match converter {
        Converter::Score(metric) => metric_score(metric, chunk, g.bitmap@),
        Converter::Intensity => Some(0),
        Converter::DirectionAndIntensity => Some(direction_and_intensity_score(chunk, g)),
        Converter::Direction => Some(direction_score(chunk, g)),
    }
}

fn glyph_gap(facing: (i128, i128), g: &Character) -> (r: u64)
    requires
        -facing_bound() <= facing.0 <= facing_bound(),
        -facing_bound() <= facing.1 <= facing_bound(),
    ensures
        r == root(gap_squared((facing.0 as int, facing.1 as int), (g.direction.0 as int, g.direction.1 as int))),
{
    let dx: i128 = facing.0 - g.direction.0 as i128;
    let dy: i128 = facing.1 - g.direction.1 as i128;
    assert(0 <= dx * dx <= 0x7fff_ffff_ffff_ffff * 0x7fff_ffff_ffff_ffff) by (nonlinear_arith)
        requires
            -0x7fff_ffff_ffff_ffff <= dx <= 0x7fff_ffff_ffff_ffff,
    ;
    assert(0 <= dy * dy <= 0x7fff_ffff_ffff_ffff * 0x7fff_ffff_ffff_ffff) by (nonlinear_arith)
        requires
            -0x7fff_ffff_ffff_ffff <= dy <= 0x7fff_ffff_ffff_ffff,
    ;
    let squared: i128 = dx * dx + dy * dy;
    isqrt(squared as u128)
}

/// What is known of a chunk before it is held against the glyphs.
struct ChunkFacts {
    facing: (i128, i128),
    sum: i128,
}

fn score_glyph(converter: Converter, chunk: &[i32], facts: &ChunkFacts, g: &Character) -> (r: Option<
    i128,
>)
    requires
        g.wf(),
        chunk@.len() == g.width * g.height,
        facts.facing.0 == chunk_facing(chunk@, g.width as int, g.height as int).0,
        facts.facing.1 == chunk_facing(chunk@, g.width as int, g.height as int).1,
        -facing_bound() <= facts.facing.0 <= facing_bound(),
        -facing_bound() <= facts.facing.1 <= facing_bound(),
        facts.sum == total(chunk@),
        -0x4000_0000_0000_0000 <= facts.sum <= 0x4000_0000_0000_0000,
    ensures
        r.is_some() == glyph_score(converter, chunk@, *g).is_some(),
        r matches Some(v) ==> glyph_score(converter, chunk@, *g) == Some(v as int),
        r matches Some(v) ==> -score_bound() <= v <= score_bound(),
{
    match converter {
        Converter::Score(metric) => metric.score(chunk, g.bitmap.as_slice()),
        Converter::Intensity => Some(0),
        Converter::Direction => {
            let gap: u64 = glyph_gap(facts.facing, g);
            Some(-(gap as i128))
        },
        Converter::DirectionAndIntensity => {
            let gap: u64 = glyph_gap(facts.facing, g);
            let area: i128 = (g.width * g.height) as i128;
            let reach: i128 = 4 * area * 65536;
            proof {
                crate::font::lemma_intensity_range(*g);
                assert(g.width * g.height * UNIT <= 0x7fff_ffff * 65536) by (nonlinear_arith)
                    requires
                        g.width * g.height <= 0x7fff_ffff,
                        UNIT == 65536,
                ;
            }
            let delta: i128 = facts.sum - g.intensity as i128;
            assert(0 <= delta * delta <= 0x4000_8000_0000_0000 * 0x4000_8000_0000_0000)
                by (nonlinear_arith)
                requires
                    -0x4000_8000_0000_0000 <= delta <= 0x4000_8000_0000_0000,
            ;
            let top: i128 = (reach - gap as i128) * 4294967296;
            let bottom: i128 = 4294967296 + delta * delta;
            let q: i128 = div_toward_zero(top, bottom);
            proof {
                crate::fixed::lemma_quotient_bound(top as int, bottom as int);
                assert(4 * (g.width * g.height) * UNIT == reach);
                assert(UNIT * UNIT == 4294967296);
            }
            Some(q)
        },
    }
}

/// The place of the greatest value: the last one, where several are equal.
pub open spec fn winner(values: Seq<int>) -> int
    decreases values.len(),
{
    if values.len() <= 1 {
        0
    } else {
        let w = winner(values.drop_last());
        if values.last() >= values[w] {
            values.len() - 1
        } else {
            w
        }
    }
}

/// The winner holds the greatest value, and every value after it is
/// strictly smaller.
pub proof fn lemma_winner(values: Seq<int>)
    requires
        values.len() > 0,
    ensures
        0 <= winner(values) < values.len(),
        forall|j: int| 0 <= j < values.len() ==> #[trigger] values[j] <= values[winner(values)],
        forall|j: int| winner(values) < j < values.len() ==> #[trigger] values[j] < values[winner(values)],
    decreases values.len(),
{
    if values.len() > 1 {
        let rest = values.drop_last();
        lemma_winner(rest);
        let w = winner(rest);
        assert(rest[w] == values[w]);
        assert forall|j: int| 0 <= j < values.len() implies #[trigger] values[j] <= values[winner(values)] by {
            if j < rest.len() {
                assert(rest[j] == values[j]);
            }
        }
        assert forall|j: int| winner(values) < j < values.len() implies #[trigger] values[j] < values[winner(values)] by {
            if j < rest.len() {
                assert(rest[j] == values[j]);
            }
        }
    }
}

/// The level of the font's table that a chunk's brightness falls on: its
/// sum in whole pixels, kept between 0 and the number of pixels.
pub open spec fn brightness_level(chunk: Seq<i32>, area: int) -> int {
    let whole = trunc_div(total(chunk), UNIT as int);
    if whole < 0 {
        0
    } else if whole > area {
        area
    } else {
        whole
    }
}

/// Every glyph of the font has a score for the chunk.
pub open spec fn all_scored(converter: Converter, font: Font, chunk: Seq<i32>) -> bool {
    forall|j: int|
        0 <= j < font.chars@.len() ==> (#[trigger] glyph_score(
            converter,
            chunk,
            font.chars@[j],
        )).is_some()
}

/// The scores of the glyphs for chunk number `index` of a worker, each with
/// the offset the worker's source gives it.
pub open spec fn noisy_scores(
    converter: Converter,
    font: Font,
    chunk: Seq<i32>,
    noise: NoiseSource,
    index: int,
) -> Seq<int> {
    Seq::new(
        font.chars@.len(),
        |j: int|
            glyph_score(converter, chunk, font.chars@[j]).unwrap() + offset(
                noise.seed,
                noise.scale,
                index * font.chars@.len() + j,
            ),
    )
}

/// The character a chunk is matched with, or why it cannot be matched.
pub open spec fn outcome(
    converter: Converter,
    font: Font,
    chunk: Seq<i32>,
    noise: NoiseSource,
    index: int,
) -> Result<char, ConvertError> {
    if chunk.len() != font.area() {
        Err(ConvertError::MalformedChunk)
    } else if converter == Converter::Intensity {
        Ok(font.chars@[font.intensity_chars@[brightness_level(chunk, font.area())] as int].value)
    } else if !all_scored(converter, font, chunk) {
        Err(ConvertError::UndefinedScore)
    } else {
        Ok(font.chars@[winner(noisy_scores(converter, font, chunk, noise, index))].value)
    }
}

/// The source that gives no offsets.
pub open spec fn silent() -> NoiseSource {
    NoiseSource { seed: 0, scale: 0 }
}

/// Matches chunk number `index` of a worker with a glyph. The score of each
/// glyph is raised by the offset that `noise` gives for it; among equal
/// sums the glyph that comes last in the font wins.
pub fn convert_chunk(
    converter: Converter,
    font: &Font,
    chunk: &[i32],
    noise: &NoiseSource,
    index: usize,
) -> (r: Result<char, ConvertError>)
    requires
        font.wf(),
    ensures
        r == outcome(converter, *font, chunk@, *noise, index as int),
{
    let area: usize = font.width * font.height;
    if chunk.len() != area {
        return Err(ConvertError::MalformedChunk);
    }
    let sum: i128 = sum_samples(chunk);
    proof {
        assert(chunk@.len() * 0x8000_0000 <= 0x7fff_ffff * 0x8000_0000) by (nonlinear_arith)
            requires
                chunk@.len() <= 0x7fff_ffff,
        ;
    }
    if let Converter::Intensity = converter {
        let whole: i128 = div_toward_zero(sum, UNIT as i128);
        let level: usize = if whole < 0 {
            0
        } else if whole > area as i128 {
            area
        } else {
            whole as usize
        };
        let at: usize = font.intensity_chars[level];
        proof {
            crate::font::lemma_intensity_table(*font);
        }
        return Ok(font.chars[at].value);
    }
    let facts = ChunkFacts { facing: chunk_direction(chunk, font.width, font.height), sum };
    let n: usize = font.chars.len();
    let ghost values: Seq<int> = Seq::empty();
    let mut best: usize = 0;
    let mut best_value: i128 = 0;
    let mut j: usize = 0;
    let ghost goal = noisy_scores(converter, *font, chunk@, *noise, index as int);
    while j < n
        invariant
            font.wf(),
            n == font.chars@.len(),
            area == font.area(),
            chunk@.len() == area,
            converter != Converter::Intensity,
            facts.facing.0 == chunk_facing(chunk@, font.width as int, font.height as int).0,
            facts.facing.1 == chunk_facing(chunk@, font.width as int, font.height as int).1,
            -facing_bound() <= facts.facing.0 <= facing_bound(),
            -facing_bound() <= facts.facing.1 <= facing_bound(),
            facts.sum == total(chunk@),
            -0x4000_0000_0000_0000 <= facts.sum <= 0x4000_0000_0000_0000,
            goal == noisy_scores(converter, *font, chunk@, *noise, index as int),
            j <= n,
            values.len() == j,
            forall|k: int|
                0 <= k < j ==> (#[trigger] glyph_score(converter, chunk@, font.chars@[k])).is_some(),
            forall|k: int| 0 <= k < j ==> #[trigger] values[k] == goal[k],
            j > 0 ==> best == winner(values) && best < j && best_value == values[best as int],
        decreases n - j,
    {
        let g: &Character = &font.chars[j];
        proof {
            let v = crate::font::views(font.chars@);
            assert(v[j as int] == font.chars@[j as int]@);
        }
        let score: i128 = match score_glyph(converter, chunk, &facts, g) {
            Some(v) => v,
            None => {
                return Err(ConvertError::UndefinedScore);
            },
        };
        assert(index * n <= 0xffff_ffff_ffff_ffff * 0xffff_ffff_ffff_ffff) by (nonlinear_arith)
            requires
                0 <= index <= 0xffff_ffff_ffff_ffff,
                0 <= n <= 0xffff_ffff_ffff_ffff,
        ;
        let draw: u128 = (index as u128) * (n as u128) + (j as u128);
        let value: i128 = score + noise.sample(draw) as i128;
        proof {
            let ghost before = values;
            values = values.push(value as int);
            assert(values.drop_last() =~= before);
        }
        if j == 0 || value >= best_value {
            best = j;
            best_value = value;
        }
        j = j + 1;
    }
    proof {
        assert(values =~= goal);
    }
    Ok(font.chars[best].value)
}

/// The glyph of the best score under `score_fn`, without offsets.
pub fn score_convert(score_fn: Metric, font: &Font, chunk: &[i32]) -> (r: Result<char, ConvertError>)
    requires
        font.wf(),
    ensures
        r == outcome(Converter::Score(score_fn), *font, chunk@, silent(), 0),
{
    convert_chunk(Converter::Score(score_fn), font, chunk, &NoiseSource::silent(), 0)
}

pub fn dot_convert(font: &Font, chunk: &[i32]) -> (r: Result<char, ConvertError>)
    requires
        font.wf(),
    ensures
        r == outcome(Converter::Score(Metric::Dot), *font, chunk@, silent(), 0),
{
    score_convert(Metric::Dot, font, chunk)
}

pub fn jaccard_convert(font: &Font, chunk: &[i32]) -> (r: Result<char, ConvertError>)
    requires
        font.wf(),
    ensures
        r == outcome(Converter::Score(Metric::Jaccard), *font, chunk@, silent(), 0),
{
    score_convert(Metric::Jaccard, font, chunk)
}

pub fn occlusion_convert(font: &Font, chunk: &[i32]) -> (r: Result<char, ConvertError>)
    requires
        font.wf(),
    ensures
        r == outcome(Converter::Score(Metric::Occlusion), *font, chunk@, silent(), 0),
{
    score_convert(Metric::Occlusion, font, chunk)
}

pub fn color_convert(font: &Font, chunk: &[i32]) -> (r: Result<char, ConvertError>)
    requires
        font.wf(),
    ensures
        r == outcome(Converter::Score(Metric::AvgColor), *font, chunk@, silent(), 0),
{
    score_convert(Metric::AvgColor, font, chunk)
}

pub fn clear_convert(font: &Font, chunk: &[i32]) -> (r: Result<char, ConvertError>)
    requires
        font.wf(),
    ensures
        r == outcome(Converter::Score(Metric::TowardClear), *font, chunk@, silent(), 0),
{
    score_convert(Metric::TowardClear, font, chunk)
}

/// The glyph that the font's table gives for the brightness of the chunk.
pub fn intensity_convert(font: &Font, chunk: &[i32]) -> (r: Result<char, ConvertError>)
    requires
        font.wf(),
    ensures
        r == outcome(Converter::Intensity, *font, chunk@, silent(), 0),
{
    convert_chunk(Converter::Intensity, font, chunk, &NoiseSource::silent(), 0)
}

pub fn direction_and_intensity_convert(font: &Font, chunk: &[i32]) -> (r: Result<char, ConvertError>)
    requires
        font.wf(),
    ensures
        r == outcome(Converter::DirectionAndIntensity, *font, chunk@, silent(), 0),
{
    convert_chunk(Converter::DirectionAndIntensity, font, chunk, &NoiseSource::silent(), 0)
}

pub fn direction_convert(font: &Font, chunk: &[i32]) -> (r: Result<char, ConvertError>)
    requires
        font.wf(),
    ensures
        r == outcome(Converter::Direction, *font, chunk@, silent(), 0),
{
    convert_chunk(Converter::Direction, font, chunk, &NoiseSource::silent(), 0)
}

/// The place in the picture of sample `k` of chunk `c`, where `across`
/// chunks of `chunk_width` × `chunk_height` samples lie side by side.
pub open spec fn chunk_source(
    width: int,
    chunk_width: int,
    chunk_height: int,
    across: int,
    c: int,
    k: int,
) -> int {
    flat(
        width,
        (c % across) * chunk_width + k % chunk_width,
        (c / across) * chunk_height + k / chunk_width,
    )
}

/// The samples of chunk `c`, row by row.
pub open spec fn chunk_of(
    pixels: Seq<i32>,
    width: int,
    chunk_width: int,
    chunk_height: int,
    c: int,
) -> Seq<i32> {
    Seq::new(
        (chunk_width * chunk_height) as nat,
        |k: int| pixels[chunk_source(width, chunk_width, chunk_height, width / chunk_width, c, k)],
    )
}

/// The chunks of a picture: `width / chunk_width` to a row, `height /
/// chunk_height` rows, rows from the top, chunks from the left. What is
/// left over at the right and at the bottom belongs to no chunk.
pub open spec fn chunks_of(
    pixels: Seq<i32>,
    width: int,
    height: int,
    chunk_width: int,
    chunk_height: int,
) -> Seq<Seq<i32>> {
    Seq::new(
        ((height / chunk_height) * (width / chunk_width)) as nat,
        |c: int| chunk_of(pixels, width, chunk_width, chunk_height, c),
    )
}

/// Piece `c` of `count == len / size` pieces of `size` each has its part
/// `k` inside `len`.
pub proof fn lemma_piece(len: int, size: int, count: int, c: int, k: int)
    requires
        0 < size,
        0 <= len,
        count == len / size,
        0 <= c < count,
        0 <= k < size,
    ensures
        0 <= c * size + k < count * size <= len,
        (c * size + k) / size == c,
        (c * size + k) % size == k,
{
    vstd::arithmetic::div_mod::lemma_fundamental_div_mod(len, size);
    vstd::arithmetic::div_mod::lemma_mod_bound(len, size);
    assert(c * size + size <= count * size && 0 <= c * size) by (nonlinear_arith)
        requires
            0 <= c < count,
            0 < size,
    ;
    assert(count * size == size * count) by (nonlinear_arith);
    assert(c * size == size * c) by (nonlinear_arith);
    vstd::arithmetic::div_mod::lemma_fundamental_div_mod_converse(c * size + k, size, c, k);
}

/// The counts and sizes of a chunking multiply without overflow, and every
/// sample of every chunk has its place in the picture.
pub proof fn lemma_chunk_source(
    width: int,
    height: int,
    chunk_width: int,
    chunk_height: int,
    c: int,
    k: int,
)
    requires
        0 <= width,
        0 <= height,
        0 < chunk_width,
        0 < chunk_height,
        0 <= c < (height / chunk_height) * (width / chunk_width),
        0 <= k < chunk_width * chunk_height,
    ensures
        0 <= c % (width / chunk_width) < width / chunk_width,
        0 <= c / (width / chunk_width) < height / chunk_height,
        0 <= k % chunk_width < chunk_width,
        0 <= k / chunk_width < chunk_height,
        0 <= (c % (width / chunk_width)) * chunk_width + k % chunk_width < (width / chunk_width)
            * chunk_width <= width,
        0 <= (c / (width / chunk_width)) * chunk_height + k / chunk_width < (height
            / chunk_height) * chunk_height <= height,
        0 <= chunk_source(width, chunk_width, chunk_height, width / chunk_width, c, k) < width
            * height,
{
    let across = width / chunk_width;
    let down = height / chunk_height;
    vstd::arithmetic::div_mod::lemma_div_pos_is_pos(width, chunk_width);
    vstd::arithmetic::div_mod::lemma_div_pos_is_pos(height, chunk_height);
    assert(c < across * down) by (nonlinear_arith)
        requires
            c < down * across,
    ;
    lemma_cell_of(across, down, c);
    lemma_cell_of(chunk_width, chunk_height, k);
    lemma_piece(width, chunk_width, across, c % across, k % chunk_width);
    lemma_piece(height, chunk_height, down, c / across, k / chunk_width);
    lemma_flat_in_range(
        width,
        height,
        (c % across) * chunk_width + k % chunk_width,
        (c / across) * chunk_height + k / chunk_width,
    );
}

/// No sample of the picture belongs to two chunks, nor twice to one.
pub proof fn lemma_chunks_apart(
    width: int,
    height: int,
    chunk_width: int,
    chunk_height: int,
    c1: int,
    k1: int,
    c2: int,
    k2: int,
)
    requires
        0 <= width,
        0 <= height,
        0 < chunk_width,
        0 < chunk_height,
        0 <= c1 < (height / chunk_height) * (width / chunk_width),
        0 <= c2 < (height / chunk_height) * (width / chunk_width),
        0 <= k1 < chunk_width * chunk_height,
        0 <= k2 < chunk_width * chunk_height,
        chunk_source(width, chunk_width, chunk_height, width / chunk_width, c1, k1) == chunk_source(
            width,
            chunk_width,
            chunk_height,
            width / chunk_width,
            c2,
            k2,
        ),
    ensures
        c1 == c2,
        k1 == k2,
{
    let across = width / chunk_width;
    let down = height / chunk_height;
    lemma_chunk_source(width, height, chunk_width, chunk_height, c1, k1);
    lemma_chunk_source(width, height, chunk_width, chunk_height, c2, k2);
    let x1 = (c1 % across) * chunk_width + k1 % chunk_width;
    let y1 = (c1 / across) * chunk_height + k1 / chunk_width;
    let x2 = (c2 % across) * chunk_width + k2 % chunk_width;
    let y2 = (c2 / across) * chunk_height + k2 / chunk_width;
    lemma_flat_in_range(width, height, x1, y1);
    lemma_flat_in_range(width, height, x2, y2);
    assert(x1 == x2 && y1 == y2);
    lemma_piece(width, chunk_width, across, c1 % across, k1 % chunk_width);
    lemma_piece(width, chunk_width, across, c2 % across, k2 % chunk_width);
    lemma_piece(height, chunk_height, down, c1 / across, k1 / chunk_width);
    lemma_piece(height, chunk_height, down, c2 / across, k2 / chunk_width);
    assert(c1 < across * down && c2 < across * down) by (nonlinear_arith)
        requires
            c1 < down * across,
            c2 < down * across,
    ;
    lemma_cell_of(across, down, c1);
    lemma_cell_of(across, down, c2);
    lemma_cell_of(chunk_width, chunk_height, k1);
    lemma_cell_of(chunk_width, chunk_height, k2);
}

/// Cuts a picture into chunks of `chunk_width` × `chunk_height` samples.
pub fn pixels_to_chunks(
    pixels: &[i32],
    width: usize,
    height: usize,
    chunk_width: usize,
    chunk_height: usize,
) -> (r: Vec<Vec<i32>>)
    requires
        pixels@.len() == width * height,
        chunk_width > 0,
        chunk_height > 0,
    ensures
        r@.len() == (height / chunk_height) * (width / chunk_width),
        r@.len() == chunks_of(
            pixels@,
            width as int,
            height as int,
            chunk_width as int,
            chunk_height as int,
        ).len(),
        forall|c: int|
            0 <= c < r@.len() ==> (#[trigger] r@[c])@ == chunks_of(
                pixels@,
                width as int,
                height as int,
                chunk_width as int,
                chunk_height as int,
            )[c],
{
    let total_len: usize = pixels.len();
    let down: usize = height / chunk_height;
    let across: usize = width / chunk_width;
    proof {
        vstd::arithmetic::div_mod::lemma_fundamental_div_mod(width as int, chunk_width as int);
        vstd::arithmetic::div_mod::lemma_fundamental_div_mod(height as int, chunk_height as int);
        vstd::arithmetic::div_mod::lemma_mod_bound(width as int, chunk_width as int);
        vstd::arithmetic::div_mod::lemma_mod_bound(height as int, chunk_height as int);
        assert(0 <= down * across <= height * width) by (nonlinear_arith)
            requires
                0 <= down <= height,
                0 <= across <= width,
        ;
        assert(height * width == width * height) by (nonlinear_arith);
        let rw = (width as int) % (chunk_width as int);
        let rh = (height as int) % (chunk_height as int);
        assert(down > 0 && across > 0 ==> chunk_width * chunk_height <= width * height)
            by (nonlinear_arith)
            requires
                width == chunk_width * across + rw,
                height == chunk_height * down + rh,
                0 <= rw,
                0 <= rh,
                0 < chunk_width,
                0 < chunk_height,
                0 <= down,
                0 <= across,
        ;
    }
    let count: usize = down * across;
    let mut chunks: Vec<Vec<i32>> = Vec::new();
    if count == 0 {
        return chunks;
    }
    assert(down > 0 && across > 0) by (nonlinear_arith)
        requires
            count == down * across,
            count > 0,
            0 <= down,
            0 <= across,
    ;
    let size: usize = chunk_width * chunk_height;
    let ghost goal = chunks_of(
        pixels@,
        width as int,
        height as int,
        chunk_width as int,
        chunk_height as int,
    );
    let mut c: usize = 0;
    while c < count
        invariant
            total_len == pixels@.len(),
            pixels@.len() == width * height,
            chunk_width > 0,
            chunk_height > 0,
            down == height / chunk_height,
            across == width / chunk_width,
            across > 0,
            count == down * across,
            size == chunk_width * chunk_height,
            goal == chunks_of(
                pixels@,
                width as int,
                height as int,
                chunk_width as int,
                chunk_height as int,
            ),
            c <= count,
            chunks@.len() == c,
            forall|d: int| 0 <= d < c ==> (#[trigger] chunks@[d])@ == goal[d],
        decreases count - c,
    {
        let cx: usize = c % across;
        let cy: usize = c / across;
        let mut chunk: Vec<i32> = Vec::new();
        let mut k: usize = 0;
        while k < size
            invariant
                total_len == pixels@.len(),
                pixels@.len() == width * height,
                chunk_width > 0,
                chunk_height > 0,
                down == height / chunk_height,
                across == width / chunk_width,
                across > 0,
                count == down * across,
                size == chunk_width * chunk_height,
                c < count,
                cx == c % across,
                cy == c / across,
                k <= size,
                chunk@.len() == k,
                forall|j: int|
                    0 <= j < k ==> #[trigger] chunk@[j] == pixels@[chunk_source(
                        width as int,
                        chunk_width as int,
                        chunk_height as int,
                        across as int,
                        c as int,
                        j,
                    )],
            decreases size - k,
        {
            proof {
                lemma_chunk_source(
                    width as int,
                    height as int,
                    chunk_width as int,
                    chunk_height as int,
                    c as int,
                    k as int,
                );
            }
            let x: usize = cx * chunk_width + k % chunk_width;
            let y: usize = cy * chunk_height + k / chunk_width;
            proof {
                lemma_flat_in_range(width as int, height as int, x as int, y as int);
            }
            chunk.push(pixels[width * y + x]);
            k = k + 1;
        }
        proof {
            assert(chunk@ =~= goal[c as int]);
        }
        chunks.push(chunk);
        c = c + 1;
    }
    chunks
}

/// What a run over several chunks comes to: all their characters in order
/// where every chunk was matched, and otherwise the error of the first chunk
/// that was not.
pub open spec fn gathered(
    outcomes: Seq<Result<char, ConvertError>>,
    r: Result<Seq<char>, ConvertError>,
) -> bool {
    match r {
        Ok(v) => {
            &&& v.len() == outcomes.len()
            &&& forall|i: int|
                0 <= i < outcomes.len() ==> #[trigger] outcomes[i] == Ok::<char, ConvertError>(v[i])
        },
        Err(e) => exists|i: int|
            0 <= i < outcomes.len() && #[trigger] outcomes[i] == Err::<char, ConvertError>(e)
                && forall|j: int| 0 <= j < i ==> (#[trigger] outcomes[j]).is_ok(),
    }
}

/// The result of a run with its characters as a sequence.
pub open spec fn seen(r: Result<Vec<char>, ConvertError>) -> Result<Seq<char>, ConvertError> {
    match r {
        Ok(v) => Ok(v@),
        Err(e) => Err(e),
    }
}

/// The outcomes of the chunks from `start` up to `end`, taken as the
/// chunks 0, 1, ... of one worker.
pub open spec fn slice_outcomes(
    converter: Converter,
    font: Font,
    chunks: Seq<Seq<i32>>,
    start: int,
    end: int,
    noise: NoiseSource,
) -> Seq<Result<char, ConvertError>> {
    Seq::new(
        (end - start) as nat,
        |k: int| outcome(converter, font, chunks[start + k], noise, k),
    )
}

/// The work of one worker: matches the chunks from `start` up to `end` in
/// order, with offsets from its own source.
pub fn convert_slice(
    converter: Converter,
    font: &Font,
    chunks: &[Vec<i32>],
    start: usize,
    end: usize,
    noise: &NoiseSource,
) -> (r: Result<Vec<char>, ConvertError>)
    requires
        font.wf(),
        start <= end <= chunks@.len(),
    ensures
        gathered(slice_outcomes(converter, *font, rows_of(chunks@), start as int, end as int, *noise), seen(r)),
{
    let ghost goal = slice_outcomes(converter, *font, rows_of(chunks@), start as int, end as int, *noise);
    let mut out: Vec<char> = Vec::new();
    let mut i: usize = start;
    while i < end
        invariant
            font.wf(),
            start <= i <= end <= chunks@.len(),
            goal == slice_outcomes(converter, *font, rows_of(chunks@), start as int, end as int, *noise),
            out@.len() == i - start,
            forall|k: int| 0 <= k < i - start ==> #[trigger] goal[k] == Ok::<char, ConvertError>(out@[k]),
        decreases end - i,
    {
        match convert_chunk(converter, font, chunks[i].as_slice(), noise, i - start) {
            Ok(c) => {
                out.push(c);
            },
            Err(e) => {
                proof {
                    assert(goal[i - start] == Err::<char, ConvertError>(e));
                }
                return Err(e);
            },
        }
        i = i + 1;
    }
    Ok(out)
}

/// How many chunks each worker takes: the chunks shared out evenly over
/// the workers, rounded up. Fewer than two workers are one.
pub open spec fn slice_size(chunks: int, concurrency: int) -> int {
    let workers = if concurrency <= 1 {
        1
    } else {
        concurrency
    };
    chunks / workers + if chunks % workers != 0 {
        1int
    } else {
        0int
    }
}

/// The outcome of chunk `i` of a dispatch: it is chunk `i % size` of the
/// worker of slice `i / size`, which has the source of that slice.
pub open spec fn dispatch_outcomes(
    converter: Converter,
    font: Font,
    chunks: Seq<Seq<i32>>,
    noise: NoiseSource,
    concurrency: int,
) -> Seq<Result<char, ConvertError>> {
    let size = slice_size(chunks.len() as int, concurrency);
    Seq::new(
        chunks.len(),
        |i: int|
            outcome(
                converter,
                font,
                chunks[i],
                NoiseSource {
                    seed: crate::noise::worker_seed(noise.seed, i / size),
                    scale: noise.scale,
                },
                i % size,
            ),
    )
}

/// Computes `slice_size`.
pub fn chunks_per_worker(chunks: usize, concurrency: usize) -> (r: usize)
    ensures
        r == slice_size(chunks as int, concurrency as int),
        chunks > 0 ==> r > 0,
        r <= chunks,
{
    let workers: usize = if concurrency <= 1 {
        1
    } else {
        concurrency
    };
    let whole: usize = chunks / workers;
    proof {
        vstd::arithmetic::div_mod::lemma_fundamental_div_mod(chunks as int, workers as int);
        vstd::arithmetic::div_mod::lemma_mod_bound(chunks as int, workers as int);
        assert(whole > 0 ==> workers * whole >= workers) by (nonlinear_arith)
            requires
                workers >= 1,
        ;
        assert(whole >= 0 && workers * whole >= whole) by (nonlinear_arith)
            requires
                workers >= 1,
                whole >= 0,
        ;
        assert(whole == 0 ==> workers * whole == 0) by (nonlinear_arith);
    }
    if chunks % workers != 0 {
        whole + 1
    } else {
        whole
    }
}

/// Matches every chunk with a glyph. The chunks are split into slices of
/// `slice_size` chunks that follow one another; each slice is the work of
/// one worker with a source of its own, and the results are put together in
/// the order of the slices, which is the order of the chunks.
pub fn dispatch(
    chunks: &[Vec<i32>],
    font: &Font,
    converter: Converter,
    concurrency: usize,
    noise: &NoiseSource,
) -> (r: Result<Vec<char>, ConvertError>)
    requires
        font.wf(),
    ensures
        gathered(dispatch_outcomes(converter, *font, rows_of(chunks@), *noise, concurrency as int), seen(r)),
{
    let n: usize = chunks.len();
    let size: usize = chunks_per_worker(n, concurrency);
    let ghost goal = dispatch_outcomes(converter, *font, rows_of(chunks@), *noise, concurrency as int);
    let mut out: Vec<char> = Vec::new();
    let mut start: usize = 0;
    let mut slice: usize = 0;
    while start < n
        invariant
            font.wf(),
            n == chunks@.len(),
            size == slice_size(n as int, concurrency as int),
            n > 0 ==> size > 0,
            goal == dispatch_outcomes(converter, *font, rows_of(chunks@), *noise, concurrency as int),
            start <= n,
            start < n ==> start == slice * size,
            slice <= start,
            out@.len() == start,
            forall|i: int| 0 <= i < start ==> #[trigger] goal[i] == Ok::<char, ConvertError>(out@[i]),
        decreases n - start,
    {
        let end: usize = if n - start < size {
            n
        } else {
            start + size
        };
        let source: NoiseSource = noise.for_slice(slice);
        let ghost part = slice_outcomes(converter, *font, rows_of(chunks@), start as int, end as int, source);
        proof {
            assert forall|k: int| 0 <= k < end - start implies #[trigger] part[k] == goal[start + k] by {
                vstd::arithmetic::div_mod::lemma_fundamental_div_mod_converse(
                    start + k,
                    size as int,
                    slice as int,
                    k,
                );
                assert(slice * size == size * slice) by (nonlinear_arith);
            }
        }
        match convert_slice(converter, font, chunks, start, end, &source) {
            Ok(mut chars) => {
                let ghost before = out@;
                out.append(&mut chars);
                proof {
                    assert forall|i: int| 0 <= i < end implies #[trigger] goal[i] == Ok::<
                        char,
                        ConvertError,
                    >(out@[i]) by {
                        if i >= start {
                            assert(part[i - start] == goal[start + (i - start)]);
                        }
                    }
                }
            },
            Err(e) => {
                proof {
                    let k = choose|k: int|
                        0 <= k < part.len() && #[trigger] part[k] == Err::<char, ConvertError>(e)
                            && forall|j: int| 0 <= j < k ==> (#[trigger] part[j]).is_ok();
                    assert(goal[start + k] == Err::<char, ConvertError>(e));
                    assert forall|j: int| 0 <= j < start + k implies (#[trigger] goal[j]).is_ok() by {
                        if j >= start {
                            assert(part[j - start] == goal[start + (j - start)]);
                            assert(part[j - start].is_ok());
                        }
                    }
                }
                return Err(e);
            },
        }
        proof {
            assert((slice + 1) * size == slice * size + size) by (nonlinear_arith);
        }
        start = end;
        slice = slice + 1;
    }
    Ok(out)
}

/// Without offsets the number of workers does not matter: every chunk has
/// the same outcome under any two of them, and so has the dispatch.
pub proof fn lemma_concurrency_without_noise(
    converter: Converter,
    font: Font,
    chunks: Seq<Seq<i32>>,
    noise: NoiseSource,
    a: int,
    b: int,
)
    requires
        noise.scale == 0,
    ensures
        dispatch_outcomes(converter, font, chunks, noise, a) == dispatch_outcomes(
            converter,
            font,
            chunks,
            noise,
            b,
        ),
        forall|r: Result<Seq<char>, ConvertError>|
            gathered(dispatch_outcomes(converter, font, chunks, noise, a), r) <==> gathered(
                dispatch_outcomes(converter, font, chunks, noise, b),
                r,
            ),
{
    let left = dispatch_outcomes(converter, font, chunks, noise, a);
    let right = dispatch_outcomes(converter, font, chunks, noise, b);
    assert forall|i: int| 0 <= i < chunks.len() implies left[i] == right[i] by {
        let size_a = slice_size(chunks.len() as int, a);
        let size_b = slice_size(chunks.len() as int, b);
        let source_a = NoiseSource { seed: crate::noise::worker_seed(noise.seed, i / size_a), scale: noise.scale };
        let source_b = NoiseSource { seed: crate::noise::worker_seed(noise.seed, i / size_b), scale: noise.scale };
        lemma_silent_outcome(converter, font, chunks[i], source_a, i % size_a, source_b, i % size_b);
    }
    assert(left =~= right);
}

/// Two sources of scale 0 give a chunk the same outcome, whatever its
/// number.
pub proof fn lemma_silent_outcome(
    converter: Converter,
    font: Font,
    chunk: Seq<i32>,
    first: NoiseSource,
    i: int,
    second: NoiseSource,
    j: int,
)
    requires
        first.scale == 0,
        second.scale == 0,
    ensures
        outcome(converter, font, chunk, first, i) == outcome(converter, font, chunk, second, j),
{
    assert(noisy_scores(converter, font, chunk, first, i) =~= noisy_scores(
        converter,
        font,
        chunk,
        second,
        j,
    ));
}

/// The characters of a picture: its chunks of the size of a glyph, each
/// matched by one worker without offsets.
pub fn pixels_to_chars(
    pixels: &[i32],
    width: usize,
    height: usize,
    font: &Font,
    convert: Converter,
) -> (r: Result<Vec<char>, ConvertError>)
    requires
        font.wf(),
        pixels@.len() == width * height,
    ensures
        gathered(
            dispatch_outcomes(
                convert,
                *font,
                chunks_of(
                    pixels@,
                    width as int,
                    height as int,
                    font.width as int,
                    font.height as int,
                ),
                silent(),
                1,
            ),
            seen(r),
        ),
{
    pixels_to_chars_with(pixels, width, height, font, convert, 1, &NoiseSource::silent())
}

/// The characters of a picture: its chunks of the size of a glyph,
/// dispatched to `concurrency` workers that draw their offsets from sources
/// made of `noise`.
pub fn pixels_to_chars_with(
    pixels: &[i32],
    width: usize,
    height: usize,
    font: &Font,
    convert: Converter,
    concurrency: usize,
    noise: &NoiseSource,
) -> (r: Result<Vec<char>, ConvertError>)
    requires
        font.wf(),
        pixels@.len() == width * height,
    ensures
        gathered(
            dispatch_outcomes(
                convert,
                *font,
                chunks_of(
                    pixels@,
                    width as int,
                    height as int,
                    font.width as int,
                    font.height as int,
                ),
                *noise,
                concurrency as int,
            ),
            seen(r),
        ),
{
    proof {
        lemma_font_has_area(*font);
    }
    let chunks: Vec<Vec<i32>> = pixels_to_chunks(pixels, width, height, font.width, font.height);
    proof {
        assert(rows_of(chunks@) =~= chunks_of(
            pixels@,
            width as int,
            height as int,
            font.width as int,
            font.height as int,
        ));
    }
    dispatch(chunks.as_slice(), font, convert, concurrency, noise)
}

/// `x` brought to a multiple of `m` by taking away what is left over when
/// its magnitude is divided by `m`: the nearest multiple of `m` in the
/// direction of zero.
pub open spec fn multiple_toward_zero(x: int, m: int) -> int {
    if x >= 0 {
        x - x % m
    } else {
        x + (-x) % m
    }
}

/// `x + (-x % m)`, with the remainder taking the sign of `-x`.
pub fn round_up_to_multiple(x: i32, m: i32) -> (r: i32)
    requires
        m > 0,
        x > i32::MIN,
    ensures
        r == multiple_toward_zero(x as int, m as int),
{
    proof {
        if x >= 0 {
            vstd::arithmetic::div_mod::lemma_mod_bound(x as int, m as int);
            vstd::arithmetic::div_mod::lemma_fundamental_div_mod(x as int, m as int);
            vstd::arithmetic::div_mod::lemma_div_pos_is_pos(x as int, m as int);
            assert(0 <= m * (x as int / m as int)) by (nonlinear_arith)
                requires
                    0 < m,
                    0 <= x as int / m as int,
            ;
        } else {
            vstd::arithmetic::div_mod::lemma_mod_bound(-x as int, m as int);
            vstd::arithmetic::div_mod::lemma_fundamental_div_mod(-x as int, m as int);
            vstd::arithmetic::div_mod::lemma_div_pos_is_pos(-x as int, m as int);
            assert(0 <= m * ((-x as int) / m as int)) by (nonlinear_arith)
                requires
                    0 < m,
                    0 <= (-x as int) / m as int,
            ;
        }
    }
    x + ((-x) % m)
}

/// The sizes of a conversion: the characters across and down, and the
/// width and height of the picture that is cut into their chunks.
#[derive(Clone, Copy, Debug, PartialEq, Eq)]
pub struct Layout {
    pub out_width: usize,
    pub out_height: usize,
    pub out_img_width: usize,
    pub out_img_height: usize,
}

/// The number of characters across: what was asked for, or else as many
/// glyphs as fit into the width of the image.
pub open spec fn columns_of(width: int, glyph_width: int, out_width: Option<usize>) -> int {
    match out_width {
        Some(w) => w as int,
        None => width / glyph_width,
    }
}

/// `height · out_width · glyph_width`, the numerator of the number of rows.
pub open spec fn row_numerator(height: int, out_width: int, glyph_width: int) -> int {
    (height * out_width) * glyph_width
}

/// The number of character rows: `height · (out_width / width) ·
/// (glyph_width / glyph_height)` rounded to the nearest whole number, halves
/// upward; no rows for an image without columns.
pub open spec fn rows_for(
    width: int,
    height: int,
    out_width: int,
    glyph_width: int,
    glyph_height: int,
) -> int {
    if width == 0 {
        0
    } else {
        (2 * row_numerator(height, out_width, glyph_width) + width * glyph_height) / (2 * (width
            * glyph_height))
    }
}

/// The layout of a conversion, whether or not the machine can hold it.
pub open spec fn layout_of(
    width: int,
    height: int,
    glyph_width: int,
    glyph_height: int,
    out_width: Option<usize>,
) -> (int, int, int, int) {
    let columns = columns_of(width, glyph_width, out_width);
    let rows = rows_for(width, height, columns, glyph_width, glyph_height);
    (columns, rows, columns * glyph_width, rows * glyph_height)
}

/// The machine can hold the layout: the numerator of the number of rows
/// stays below 2¹²⁶, and the picture that is cut into chunks has no more
/// samples than a machine word counts.
pub open spec fn layout_fits(
    width: int,
    height: int,
    glyph_width: int,
    glyph_height: int,
    out_width: Option<usize>,
) -> bool {
    let l = layout_of(width, height, glyph_width, glyph_height, out_width);
    &&& row_numerator(height, l.0, glyph_width) < 0x4000_0000_0000_0000_0000_0000_0000_0000
    &&& l.1 <= usize::MAX
    &&& l.2 <= usize::MAX
    &&& l.3 <= usize::MAX
    &&& l.2 * l.3 <= usize::MAX
}

/// Works out the layout of a conversion. Fails with `TooLarge` exactly
/// when the machine cannot hold it.
pub fn plan_layout(font: &Font, width: usize, height: usize, out_width: Option<usize>) -> (r: Result<
    Layout,
    ConvertError,
>)
    requires
        font.wf(),
    ensures
        r.is_ok() <==> layout_fits(
            width as int,
            height as int,
            font.width as int,
            font.height as int,
            out_width,
        ),
        r matches Err(e) ==> e == ConvertError::TooLarge,
        r matches Ok(l) ==> (l.out_width as int, l.out_height as int, l.out_img_width as int, l.out_img_height as int)
            == layout_of(width as int, height as int, font.width as int, font.height as int, out_width),
{
    proof {
        lemma_font_has_area(*font);
        assert(font.width <= font.width * font.height && font.height <= font.width * font.height)
            by (nonlinear_arith)
            requires
                font.width > 0,
                font.height > 0,
        ;
    }
    let columns: usize = match out_width {
        Some(w) => w,
        None => {
            if width <= 0x7fff_ffff {
                let whole: i32 = round_up_to_multiple(width as i32, font.width as i32);
                proof {
                    vstd::arithmetic::div_mod::lemma_fundamental_div_mod(width as int, font.width as int);
                    vstd::arithmetic::div_mod::lemma_mod_bound(width as int, font.width as int);
                    vstd::arithmetic::div_mod::lemma_div_pos_is_pos(width as int, font.width as int);
                    let q = width as int / font.width as int;
                    assert(font.width * q == q * font.width) by (nonlinear_arith);
                    vstd::arithmetic::div_mod::lemma_div_multiples_vanish(q, font.width as int);
                    assert(0 <= q * font.width) by (nonlinear_arith)
                        requires
                            0 <= q,
                            0 < font.width,
                    ;
                }
                whole as usize / font.width
            } else {
                width / font.width
            }
        },
    };
    let ghost l = layout_of(width as int, height as int, font.width as int, font.height as int, out_width);
    assert(0 <= height * columns <= 0xffff_ffff_ffff_ffff * 0xffff_ffff_ffff_ffff) by (nonlinear_arith)
        requires
            0 <= height <= 0xffff_ffff_ffff_ffff,
            0 <= columns <= 0xffff_ffff_ffff_ffff,
    ;
    let span: u128 = (height as u128) * (columns as u128);
    let top: u128 = match span.checked_mul(font.width as u128) {
        Some(t) => t,
        None => {
            return Err(ConvertError::TooLarge);
        },
    };
    if top >= 0x4000_0000_0000_0000_0000_0000_0000_0000 {
        return Err(ConvertError::TooLarge);
    }
    let rows: u128 = if width == 0 {
        0
    } else {
        assert(0 < width * font.height <= 0xffff_ffff_ffff_ffff * 0x7fff_ffff) by (nonlinear_arith)
            requires
                0 < width <= 0xffff_ffff_ffff_ffff,
                0 < font.height <= 0x7fff_ffff,
        ;
        let bottom: u128 = (width as u128) * (font.height as u128);
        (2 * top + bottom) / (2 * bottom)
    };
    if rows > usize::MAX as u128 {
        return Err(ConvertError::TooLarge);
    }
    let out_height: usize = rows as usize;
    let out_img_width: usize = match columns.checked_mul(font.width) {
        Some(w) => w,
        None => {
            return Err(ConvertError::TooLarge);
        },
    };
    let out_img_height: usize = match out_height.checked_mul(font.height) {
        Some(h) => h,
        None => {
            return Err(ConvertError::TooLarge);
        },
    };
    match out_img_width.checked_mul(out_img_height) {
        Some(_) => {},
        None => {
            return Err(ConvertError::TooLarge);
        },
    }
    Ok(Layout { out_width: columns, out_height, out_img_width, out_img_height })
}

/// The kernel that blurs an image before its edges are taken: a Gaussian
/// of deviation 1 over five taps, its weights adding up to `UNIT`.
pub open spec fn edge_blur_kernel() -> Seq<i32> {
    seq![3571i32, 16004i32, 26386i32, 16004i32, 3571i32]
}

/// Every sample less the brightness offset.
pub open spec fn darkened(pixels: Seq<i32>, brightness_offset: int) -> Seq<i32> {
    Seq::new(pixels.len(), |i: int| clamp_sample(pixels[i] - brightness_offset) as i32)
}

/// A quarter of every luminance sample, plus the edge sample at the same
/// place, less the brightness offset.
pub open spec fn overlaid(luma: Seq<i32>, edges: Seq<i32>, brightness_offset: int) -> Seq<i32> {
    Seq::new(
        luma.len(),
        |i: int| clamp_sample(trunc_div(luma[i] as int, 4) + edges[i] - brightness_offset) as i32,
    )
}

/// The samples of the image at the size of the layout.
pub open spec fn luma_samples(img: LumaImage<i32>, layout: Layout) -> Seq<i32> {
    resized(
        img@,
        img.spec_width() as int,
        img.spec_height() as int,
        layout.out_img_width as int,
        layout.out_img_height as int,
    )
}

/// The edges of the image at the size of the layout: the image blurred,
/// then the response of the Laplacian kernel, then the resize.
pub open spec fn edge_samples(img: LumaImage<i32>, layout: Layout) -> Seq<i32> {
    let w = img.spec_width() as int;
    let h = img.spec_height() as int;
    let blurred = row_pass(column_pass(img@, w, h, edge_blur_kernel()), w, h, edge_blur_kernel());
    resized(
        grid_pass(blurred, w, h, laplacian()),
        w,
        h,
        layout.out_img_width as int,
        layout.out_img_height as int,
    )
}

/// Whether the image can be brought to the size of the layout: the layout
/// has room for its samples, and an image without samples is only brought
/// to a size without samples.
pub open spec fn layout_suits(img: LumaImage<i32>, layout: Layout) -> bool {
    &&& layout.out_img_width * layout.out_img_height <= usize::MAX
    &&& layout.out_img_width * layout.out_img_height > 0 ==> img.spec_width() > 0
        && img.spec_height() > 0
}

fn darken(pixels: &Vec<i32>, brightness_offset: i32) -> (r: Vec<i32>)
    ensures
        r@ == darkened(pixels@, brightness_offset as int),
{
    let n: usize = pixels.len();
    let mut out: Vec<i32> = Vec::new();
    let mut i: usize = 0;
    while i < n
        invariant
            n == pixels@.len(),
            i <= n,
            out@.len() == i,
            forall|j: int| 0 <= j < i ==> #[trigger] out@[j] == darkened(pixels@, brightness_offset as int)[j],
        decreases n - i,
    {
        out.push(saturate(pixels[i] as i128 - brightness_offset as i128));
        i = i + 1;
    }
    assert(out@ =~= darkened(pixels@, brightness_offset as int));
    out
}

/// The image blurred, edge-detected and brought to the size of the layout.
fn edge_image(img: &LumaImage<i32>, layout: &Layout) -> (r: LumaImage<i32>)
    requires
        img.wf(),
        layout_suits(*img, *layout),
    ensures
        r.wf(),
        r.spec_width() == layout.out_img_width,
        r.spec_height() == layout.out_img_height,
        r@ == edge_samples(*img, *layout),
{
    let kernel: Vec<i32> = vec![3571i32, 16004i32, 26386i32, 16004i32, 3571i32];
    assert(kernel@ =~= edge_blur_kernel());
    let mut edge_img: LumaImage<i32> = img.clone();
    edge_img.blur(kernel.as_slice());
    edge_img = edge_img.detect_edges();
    edge_img.resize(layout.out_img_width, layout.out_img_height)
}

/// The samples that the luminance pass matches.
pub fn base_pixels(img: &LumaImage<i32>, layout: &Layout, brightness_offset: i32) -> (r: Vec<i32>)
    requires
        img.wf(),
        layout_suits(*img, *layout),
    ensures
        r@ == darkened(luma_samples(*img, *layout), brightness_offset as int),
        r@.len() == layout.out_img_width * layout.out_img_height,
{
    let resized_image: LumaImage<i32> = img.resize(layout.out_img_width, layout.out_img_height);
    proof {
        resized_image.lemma_wf();
    }
    darken(resized_image.pixels(), brightness_offset)
}

/// The samples that the edge pass matches.
pub fn edge_pixels(img: &LumaImage<i32>, layout: &Layout, brightness_offset: i32) -> (r: Vec<i32>)
    requires
        img.wf(),
        layout_suits(*img, *layout),
    ensures
        r@ == darkened(edge_samples(*img, *layout), brightness_offset as int),
        r@.len() == layout.out_img_width * layout.out_img_height,
{
    let edge_img: LumaImage<i32> = edge_image(img, layout);
    proof {
        edge_img.lemma_wf();
    }
    darken(edge_img.pixels(), brightness_offset)
}

/// The samples that the edge-augmented pass matches.
pub fn augmented_pixels(img: &LumaImage<i32>, layout: &Layout, brightness_offset: i32) -> (r: Vec<i32>)
    requires
        img.wf(),
        layout_suits(*img, *layout),
    ensures
        r@ == overlaid(luma_samples(*img, *layout), edge_samples(*img, *layout), brightness_offset as int),
        r@.len() == layout.out_img_width * layout.out_img_height,
{
    let resized_image: LumaImage<i32> = img.resize(layout.out_img_width, layout.out_img_height);
    let edge_img: LumaImage<i32> = edge_image(img, layout);
    proof {
        resized_image.lemma_wf();
        edge_img.lemma_wf();
    }
    let luma: &Vec<i32> = resized_image.pixels();
    let edges: &Vec<i32> = edge_img.pixels();
    let n: usize = luma.len();
    let ghost goal = overlaid(luma@, edges@, brightness_offset as int);
    let mut out: Vec<i32> = Vec::new();
    let mut i: usize = 0;
    while i < n
        invariant
            n == luma@.len(),
            n == edges@.len(),
            goal == overlaid(luma@, edges@, brightness_offset as int),
            i <= n,
            out@.len() == i,
            forall|j: int| 0 <= j < i ==> #[trigger] out@[j] == goal[j],
        decreases n - i,
    {
        let quarter: i128 = div_toward_zero(luma[i] as i128, 4);
        out.push(saturate(quarter + edges[i] as i128 - brightness_offset as i128));
        i = i + 1;
    }
    assert(out@ =~= goal);
    out
}

/// The edge character of every cell where it is not blank, and the
/// luminance character where it is.
pub open spec fn merged(luma: Seq<char>, edge: Seq<char>) -> Seq<char> {
    Seq::new(
        luma.len(),
        |i: int|
            if edge[i] == ' ' {
                luma[i]
            } else {
                edge[i]
            },
    )
}

/// Puts the characters of an edge pass over those of a luminance pass.
pub fn merge_passes(luma_chars: &[char], edge_chars: &[char]) -> (r: Vec<char>)
    requires
        luma_chars@.len() == edge_chars@.len(),
    ensures
        r@ == merged(luma_chars@, edge_chars@),
        r@.len() == luma_chars@.len(),
        forall|i: int|
            0 <= i < r@.len() ==> #[trigger] r@[i] == (if edge_chars@[i] == ' ' {
                luma_chars@[i]
            } else {
                edge_chars@[i]
            }),
{
    let n: usize = luma_chars.len();
    let mut out: Vec<char> = Vec::new();
    let mut i: usize = 0;
    while i < n
        invariant
            n == luma_chars@.len(),
            n == edge_chars@.len(),
            i <= n,
            out@.len() == i,
            forall|j: int| 0 <= j < i ==> #[trigger] out@[j] == merged(luma_chars@, edge_chars@)[j],
        decreases n - i,
    {
        let edge: char = edge_chars[i];
        if edge == ' ' {
            out.push(luma_chars[i]);
        } else {
            out.push(edge);
        }
        i = i + 1;
    }
    assert(out@ =~= merged(luma_chars@, edge_chars@));
    out
}

/// The rows of a grid of characters as sequences.
pub open spec fn char_rows(rows: Seq<Vec<char>>) -> Seq<Seq<char>> {
    Seq::new(rows.len(), |y: int| rows[y]@)
}

/// The characters cut into rows of `out_width`.
pub open spec fn rows_of_chars(chars: Seq<char>, out_width: int, out_height: int) -> Seq<Seq<char>> {
    Seq::new(out_height as nat, |y: int| chars.subrange(y * out_width, y * out_width + out_width))
}

/// Cuts the characters into `out_height` rows of `out_width`.
pub fn chars_to_rows(chars: &[char], out_width: usize, out_height: usize) -> (r: Vec<Vec<char>>)
    requires
        chars@.len() == out_height * out_width,
    ensures
        r@.len() == out_height,
        forall|y: int|
            0 <= y < out_height ==> (#[trigger] r@[y])@ == rows_of_chars(
                chars@,
                out_width as int,
                out_height as int,
            )[y],
{
    let n: usize = chars.len();
    let mut rows: Vec<Vec<char>> = Vec::new();
    let mut y: usize = 0;
    while y < out_height
        invariant
            n == chars@.len(),
            chars@.len() == out_height * out_width,
            y <= out_height,
            rows@.len() == y,
            forall|j: int|
                0 <= j < y ==> (#[trigger] rows@[j])@ == chars@.subrange(
                    j * out_width,
                    j * out_width + out_width,
                ),
        decreases out_height - y,
    {
        proof {
            assert(0 <= y * out_width && y * out_width + out_width <= out_height * out_width)
                by (nonlinear_arith)
                requires
                    0 <= y < out_height,
                    0 <= out_width,
            ;
        }
        let start: usize = y * out_width;
        let mut row: Vec<char> = Vec::new();
        let mut x: usize = 0;
        while x < out_width
            invariant
                n == chars@.len(),
                start + out_width <= n,
                x <= out_width,
                row@.len() == x,
                forall|i: int| 0 <= i < x ==> #[trigger] row@[i] == chars@[start + i],
            decreases out_width - x,
        {
            row.push(chars[start + x]);
            x = x + 1;
        }
        assert(row@ =~= chars@.subrange(y * out_width, y * out_width + out_width));
        rows.push(row);
        y = y + 1;
    }
    rows
}

/// The outcomes of one pass over the samples of a layout: its chunks of the
/// size of a glyph, dispatched to the workers.
pub open spec fn pass_outcomes(
    converter: Converter,
    font: Font,
    pixels: Seq<i32>,
    layout: Layout,
    noise: NoiseSource,
    concurrency: int,
) -> Seq<Result<char, ConvertError>> {
    dispatch_outcomes(
        converter,
        font,
        chunks_of(
            pixels,
            layout.out_img_width as int,
            layout.out_img_height as int,
            font.width as int,
            font.height as int,
        ),
        noise,
        concurrency,
    )
}

/// The result of the two passes together: the error of the luminance
/// pass, else the error of the edge pass, else the characters merged.
pub open spec fn combined(
    luma: Result<Seq<char>, ConvertError>,
    edge: Result<Seq<char>, ConvertError>,
) -> Result<Seq<char>, ConvertError> {
    match luma {
        Err(e) => Err(e),
        Ok(a) => match edge {
            Err(e) => Err(e),
            Ok(b) => Ok(merged(a, b)),
        },
    }
}

/// `r` is what the algorithm makes of the image at the given layout, with
/// the given source of offsets and number of workers.
pub open spec fn converted(
    font: Font,
    img: LumaImage<i32>,
    convert: Converter,
    layout: Layout,
    brightness_offset: int,
    algorithm: ConversionAlgorithm,
    noise: NoiseSource,
    concurrency: int,
    r: Result<Seq<char>, ConvertError>,
) -> bool {
    let luma = darkened(luma_samples(img, layout), brightness_offset);
    let edges = darkened(edge_samples(img, layout), brightness_offset);
    match algorithm {
        ConversionAlgorithm::Base => gathered(pass_outcomes(convert, font, luma, layout, noise, concurrency), r),
        ConversionAlgorithm::Edge => gathered(
            pass_outcomes(Converter::Direction, font, edges, layout, noise, concurrency),
            r,
        ),
        ConversionAlgorithm::EdgeAugmented => gathered(
            pass_outcomes(
                convert,
                font,
                overlaid(luma_samples(img, layout), edge_samples(img, layout), brightness_offset),
                layout, noise, concurrency,
            ),
            r,
        ),
        ConversionAlgorithm::TwoPass => exists|
            l: Result<Seq<char>, ConvertError>,
            e: Result<Seq<char>, ConvertError>,
        |
            #![trigger combined(l, e)]
            gathered(pass_outcomes(convert, font, luma, layout, noise, concurrency), l) && gathered(
                pass_outcomes(Converter::Direction, font, edges, layout, noise, concurrency),
                e,
            ) && r == combined(l, e),
    }
}

/// The characters of an image at a given layout, chunk by chunk.
pub fn convert_image(
    font: &Font,
    img: &LumaImage<i32>,
    convert: Converter,
    layout: &Layout,
    brightness_offset: i32,
    algorithm: &ConversionAlgorithm,
    concurrency: usize,
    noise: &NoiseSource,
) -> (r: Result<Vec<char>, ConvertError>)
    requires
        font.wf(),
        img.wf(),
        layout_suits(*img, *layout),
    ensures
        converted(
            *font,
            *img,
            convert,
            *layout,
            brightness_offset as int,
            *algorithm,
            *noise,
            concurrency as int,
            seen(r),
        ),
{
    let width: usize = layout.out_img_width;
    let height: usize = layout.out_img_height;
    match algorithm {
        ConversionAlgorithm::Base => {
            let pixels: Vec<i32> = base_pixels(img, layout, brightness_offset);
            pixels_to_chars_with(pixels.as_slice(), width, height, font, convert, concurrency, noise)
        },
        ConversionAlgorithm::Edge => {
            let pixels: Vec<i32> = edge_pixels(img, layout, brightness_offset);
            pixels_to_chars_with(
                pixels.as_slice(),
                width,
                height,
                font,
                Converter::Direction,
                concurrency,
                noise,
            )
        },
        ConversionAlgorithm::EdgeAugmented => {
            let pixels: Vec<i32> = augmented_pixels(img, layout, brightness_offset);
            pixels_to_chars_with(pixels.as_slice(), width, height, font, convert, concurrency, noise)
        },
        ConversionAlgorithm::TwoPass => {
            let luma_pixels: Vec<i32> = base_pixels(img, layout, brightness_offset);
            let edge_pixels: Vec<i32> = edge_pixels(img, layout, brightness_offset);
            let luma_result = pixels_to_chars_with(
                luma_pixels.as_slice(),
                width,
                height,
                font,
                convert,
                concurrency,
                noise,
            );
            let edge_result = pixels_to_chars_with(
                edge_pixels.as_slice(),
                width,
                height,
                font,
                Converter::Direction,
                concurrency,
                noise,
            );
            let ghost l = seen(luma_result);
            let ghost e = seen(edge_result);
            match luma_result {
                Err(x) => {
                    assert(combined(l, e) == Err::<Seq<char>, ConvertError>(x));
                    Err(x)
                },
                Ok(luma_chars) => match edge_result {
                    Err(y) => {
                        assert(combined(l, e) == Err::<Seq<char>, ConvertError>(y));
                        Err(y)
                    },
                    Ok(edge_chars) => {
                        let chars: Vec<char> = merge_passes(luma_chars.as_slice(), edge_chars.as_slice());
                        assert(combined(l, e) == Ok::<Seq<char>, ConvertError>(chars@));
                        Ok(chars)
                    },
                },
            }
        },
    }
}

/// The layout that `plan_layout` gives suits every well-formed image of the
/// size it was planned for, and its picture holds one chunk for each
/// character.
pub proof fn lemma_layout(font: Font, img: LumaImage<i32>, out_width: Option<usize>, layout: Layout)
    requires
        font.wf(),
        img.wf(),
        layout_fits(
            img.spec_width() as int,
            img.spec_height() as int,
            font.width as int,
            font.height as int,
            out_width,
        ),
        (layout.out_width as int, layout.out_height as int, layout.out_img_width as int, layout.out_img_height as int)
            == layout_of(
            img.spec_width() as int,
            img.spec_height() as int,
            font.width as int,
            font.height as int,
            out_width,
        ),
    ensures
        layout_suits(img, layout),
        (layout.out_img_height as int / font.height as int) * (layout.out_img_width as int
            / font.width as int) == layout.out_height * layout.out_width,
{
    lemma_font_has_area(font);
    let w = img.spec_width() as int;
    let h = img.spec_height() as int;
    let fw = font.width as int;
    let fh = font.height as int;
    vstd::arithmetic::div_mod::lemma_div_multiples_vanish(layout.out_height as int, fh);
    vstd::arithmetic::div_mod::lemma_div_multiples_vanish(layout.out_width as int, fw);
    assert(layout.out_height * fh == fh * layout.out_height) by (nonlinear_arith);
    assert(layout.out_width * fw == fw * layout.out_width) by (nonlinear_arith);
    if layout.out_img_width * layout.out_img_height > 0 {
        assert(layout.out_img_height > 0) by (nonlinear_arith)
            requires
                layout.out_img_width * layout.out_img_height > 0,
                layout.out_img_width >= 0,
                layout.out_img_height >= 0,
        ;
        assert(layout.out_height > 0) by (nonlinear_arith)
            requires
                layout.out_height * fh > 0,
                fh > 0,
                layout.out_height >= 0,
        ;
        assert(w != 0);
        let top = row_numerator(h, layout.out_width as int, fw);
        let bottom = w * fh;
        assert(bottom > 0) by (nonlinear_arith)
            requires
                w > 0,
                fh > 0,
                bottom == w * fh,
        ;
        if h == 0 {
            assert(top == 0) by (nonlinear_arith)
                requires
                    h == 0,
                    top == (h * layout.out_width) * fw,
            ;
            vstd::arithmetic::div_mod::lemma_basic_div(bottom, 2 * bottom);
        }
    }
}

/// `r` is what the conversion of an image comes to: `TooLarge` where the
/// machine cannot hold the layout, and otherwise what the algorithm makes
/// of the image at its layout, cut into rows.
pub open spec fn rendered(
    font: Font,
    img: LumaImage<i32>,
    convert: Converter,
    out_width: Option<usize>,
    brightness_offset: int,
    algorithm: ConversionAlgorithm,
    noise: NoiseSource,
    concurrency: int,
    r: Result<Vec<Vec<char>>, ConvertError>,
) -> bool {
    let fits = layout_fits(
        img.spec_width() as int,
        img.spec_height() as int,
        font.width as int,
        font.height as int,
        out_width,
    );
    &&& !fits ==> r == Err::<Vec<Vec<char>>, ConvertError>(ConvertError::TooLarge)
    &&& fits ==> exists|layout: Layout, chars: Result<Seq<char>, ConvertError>|
        {
            &&& (layout.out_width as int, layout.out_height as int, layout.out_img_width as int, layout.out_img_height as int)
                == layout_of(
                img.spec_width() as int,
                img.spec_height() as int,
                font.width as int,
                font.height as int,
                out_width,
            )
            &&& #[trigger] converted(
                font,
                img,
                convert,
                layout,
                brightness_offset,
                algorithm,
                noise,
                concurrency,
                chars,
            )
            &&& match chars {
                Err(e) => r == Err::<Vec<Vec<char>>, ConvertError>(e),
                Ok(c) => r.is_ok() && char_rows(r.unwrap()@) == rows_of_chars(
                    c,
                    layout.out_width as int,
                    layout.out_height as int,
                ),
            }
        }
}

/// The characters of an image, row by row.
///
/// The image is brought to `out_width` characters across (as many as fit,
/// where `None` is given) and as many rows as keep its proportions; the
/// algorithm then matches every chunk of the size of a glyph, with one
/// worker and without offsets.
pub fn img_to_char_rows(
    font: &Font,
    img: &LumaImage<i32>,
    convert: Converter,
    out_width: Option<usize>,
    brightness_offset: i32,
    algorithm: &ConversionAlgorithm,
) -> (r: Result<Vec<Vec<char>>, ConvertError>)
    requires
        font.wf(),
        img.wf(),
    ensures
        rendered(*font, *img, convert, out_width, brightness_offset as int, *algorithm, silent(), 1, r),
{
    img_to_char_rows_with(
        font,
        img,
        convert,
        out_width,
        brightness_offset,
        algorithm,
        1,
        &NoiseSource::silent(),
    )
}

/// The characters of an image, row by row, with the chunks dispatched to
/// `concurrency` workers that draw their offsets from sources made of
/// `noise`.
pub fn img_to_char_rows_with(
    font: &Font,
    img: &LumaImage<i32>,
    convert: Converter,
    out_width: Option<usize>,
    brightness_offset: i32,
    algorithm: &ConversionAlgorithm,
    concurrency: usize,
    noise: &NoiseSource,
) -> (r: Result<Vec<Vec<char>>, ConvertError>)
    requires
        font.wf(),
        img.wf(),
    ensures
        rendered(
            *font,
            *img,
            convert,
            out_width,
            brightness_offset as int,
            *algorithm,
            *noise,
            concurrency as int,
            r,
        ),
{
    let (width, height) = crate::image::Image::get_dimensions(img);
    let layout: Layout = match plan_layout(font, width, height, out_width) {
        Ok(l) => l,
        Err(e) => {
            return Err(e);
        },
    };
    proof {
        lemma_layout(*font, *img, out_width, layout);
    }
    let result = convert_image(
        font,
        img,
        convert,
        &layout,
        brightness_offset,
        algorithm,
        concurrency,
        noise,
    );
    let ghost chars = seen(result);
    match result {
        Err(e) => Err(e),
        Ok(found) => {
            proof {
                lemma_converted_len(
                    *font,
                    *img,
                    convert,
                    layout,
                    brightness_offset as int,
                    *algorithm,
                    *noise,
                    concurrency as int,
                    found@,
                );
            }
            let rows: Vec<Vec<char>> = chars_to_rows(found.as_slice(), layout.out_width, layout.out_height);
            proof {
                assert(char_rows(rows@) =~= rows_of_chars(
                    found@,
                    layout.out_width as int,
                    layout.out_height as int,
                ));
            }
            Ok(rows)
        },
    }
}

/// A conversion that succeeds gives one character for each chunk.
pub proof fn lemma_converted_len(
    font: Font,
    img: LumaImage<i32>,
    convert: Converter,
    layout: Layout,
    brightness_offset: int,
    algorithm: ConversionAlgorithm,
    noise: NoiseSource,
    concurrency: int,
    chars: Seq<char>,
)
    requires
        font.wf(),
        converted(
            font,
            img,
            convert,
            layout,
            brightness_offset,
            algorithm,
            noise,
            concurrency,
            Ok(chars),
        ),
    ensures
        chars.len() == (layout.out_img_height as int / font.height as int) * (
        layout.out_img_width as int / font.width as int),
{
    lemma_font_has_area(font);
    let down = layout.out_img_height as int / font.height as int;
    let across = layout.out_img_width as int / font.width as int;
    vstd::arithmetic::div_mod::lemma_div_pos_is_pos(layout.out_img_height as int, font.height as int);
    vstd::arithmetic::div_mod::lemma_div_pos_is_pos(layout.out_img_width as int, font.width as int);
    assert(0 <= down * across) by (nonlinear_arith)
        requires
            0 <= down,
            0 <= across,
    ;
    if algorithm == ConversionAlgorithm::TwoPass {
        let (l, e) = choose|l: Result<Seq<char>, ConvertError>, e: Result<Seq<char>, ConvertError>|
            #![trigger combined(l, e)]
            gathered(
                pass_outcomes(
                    convert,
                    font,
                    darkened(luma_samples(img, layout), brightness_offset),
                    layout, noise, concurrency,
                ),
                l,
            ) && gathered(
                pass_outcomes(
                    Converter::Direction,
                    font,
                    darkened(edge_samples(img, layout), brightness_offset),
                    layout, noise, concurrency,
                ),
                e,
            ) && Ok::<Seq<char>, ConvertError>(chars) == combined(l, e);
    }
}

/// The place of the first part at or after `from` that carries the number
/// `slice`; the number of parts where there is none.
pub open spec fn first_part(parts: Seq<(usize, Vec<char>)>, slice: int, from: int) -> int
    decreases parts.len() - from,
{
    if from < 0 || from >= parts.len() {
        parts.len() as int
    } else if parts[from].0 == slice {
        from
    } else {
        first_part(parts, slice, from + 1)
    }
}

/// The characters of the parts numbered 0, 1, ... up to `count`, in the
/// order of their numbers.
pub open spec fn joined(parts: Seq<(usize, Vec<char>)>, count: int) -> Seq<char>
    decreases count,
{
    if count <= 0 {
        Seq::empty()
    } else {
        joined(parts, count - 1) + parts[first_part(parts, count - 1, 0)].1@
    }
}

/// There is a part for every number below `count`.
pub open spec fn complete(parts: Seq<(usize, Vec<char>)>, count: int) -> bool {
    forall|s: int| 0 <= s < count ==> #[trigger] first_part(parts, s, 0) < parts.len()
}

fn find_part(parts: &[(usize, Vec<char>)], slice: usize) -> (r: usize)
    ensures
        r == first_part(parts@, slice as int, 0),
        r <= parts@.len(),
        r < parts@.len() ==> parts@[r as int].0 == slice,
{
    let n: usize = parts.len();
    let mut p: usize = 0;
    while p < n
        invariant
            n == parts@.len(),
            p <= n,
            first_part(parts@, slice as int, 0) == first_part(parts@, slice as int, p as int),
        decreases n - p,
    {
        if parts[p].0 == slice {
            return p;
        }
        p = p + 1;
    }
    p
}

/// The work of the coordinator: puts the results of the workers together
/// in the order of the numbers of their slices, in whatever order they came
/// in. `None` exactly where a slice below `count` has no result.
pub fn assemble(parts: &[(usize, Vec<char>)], count: usize) -> (r: Option<Vec<char>>)
    ensures
        r.is_some() <==> complete(parts@, count as int),
        r matches Some(v) ==> v@ == joined(parts@, count as int),
{
    let mut out: Vec<char> = Vec::new();
    let mut s: usize = 0;
    while s < count
        invariant
            s <= count,
            out@ == joined(parts@, s as int),
            forall|t: int| 0 <= t < s ==> #[trigger] first_part(parts@, t, 0) < parts@.len(),
        decreases count - s,
    {
        let p: usize = find_part(parts, s);
        if p >= parts.len() {
            return None;
        }
        let chars: &Vec<char> = &parts[p].1;
        let n: usize = chars.len();
        let ghost before = out@;
        let mut i: usize = 0;
        while i < n
            invariant
                n == chars@.len(),
                i <= n,
                out@ == before + chars@.take(i as int),
            decreases n - i,
        {
            out.push(chars[i]);
            assert(chars@.take(i + 1) =~= chars@.take(i as int).push(chars@[i as int]));
            i = i + 1;
        }
        assert(chars@.take(n as int) =~= chars@);
        s = s + 1;
    }
    Some(out)
}

/// Whatever order the parts come in: where part number `s` holds the
/// characters from `s · size` up to the next slice, the parts put together
/// are all the characters in their order.
pub proof fn lemma_joined_in_order(parts: Seq<(usize, Vec<char>)>, count: int, size: int, all: Seq<char>)
    requires
        0 < size,
        0 <= count,
        count * size >= all.len(),
        forall|s: int|
            0 <= s < count ==> 0 <= #[trigger] first_part(parts, s, 0) < parts.len() && parts[first_part(
                parts,
                s,
                0,
            )].1@ == all.subrange(
                if s * size < all.len() {
                    s * size
                } else {
                    all.len() as int
                },
                if s * size + size < all.len() {
                    s * size + size
                } else {
                    all.len() as int
                },
            ),
    ensures
        joined(parts, count) == all,
{
    lemma_joined_prefix(parts, count, count, size, all);
    assert(all.subrange(0, all.len() as int) =~= all);
}

proof fn lemma_joined_prefix(parts: Seq<(usize, Vec<char>)>, count: int, upto: int, size: int, all: Seq<char>)
    requires
        0 < size,
        0 <= upto <= count,
        forall|s: int|
            0 <= s < count ==> 0 <= #[trigger] first_part(parts, s, 0) < parts.len() && parts[first_part(
                parts,
                s,
                0,
            )].1@ == all.subrange(
                if s * size < all.len() {
                    s * size
                } else {
                    all.len() as int
                },
                if s * size + size < all.len() {
                    s * size + size
                } else {
                    all.len() as int
                },
            ),
    ensures
        joined(parts, upto) == all.subrange(
            0,
            if upto * size < all.len() {
                upto * size
            } else {
                all.len() as int
            },
        ),
    decreases upto,
{
    if upto > 0 {
        lemma_joined_prefix(parts, count, upto - 1, size, all);
        let s = upto - 1;
        assert(first_part(parts, s, 0) < parts.len());
        assert(s * size + size == upto * size) by (nonlinear_arith)
            requires
                s == upto - 1,
        ;
        assert(0 <= s * size) by (nonlinear_arith)
            requires
                0 <= s,
                0 < size,
        ;
        let a = if s * size < all.len() {
            s * size
        } else {
            all.len() as int
        };
        let b = if upto * size < all.len() {
            upto * size
        } else {
            all.len() as int
        };
        assert(all.subrange(0, a) + all.subrange(a, b) =~= all.subrange(0, b));
    } else {
        assert(upto * size == 0) by (nonlinear_arith)
            requires
                upto == 0,
        ;
        assert(joined(parts, 0) =~= all.subrange(0, 0));
    }
}

/// The result of a run is one and no other.
pub proof fn lemma_gathered_unique(
    outcomes: Seq<Result<char, ConvertError>>,
    a: Result<Seq<char>, ConvertError>,
    b: Result<Seq<char>, ConvertError>,
)
    requires
        gathered(outcomes, a),
        gathered(outcomes, b),
    ensures
        a == b,
{
    match (a, b) {
        (Ok(x), Ok(y)) => {
            assert forall|i: int| 0 <= i < x.len() implies x[i] == y[i] by {
                assert(outcomes[i] == Ok::<char, ConvertError>(x[i]));
                assert(outcomes[i] == Ok::<char, ConvertError>(y[i]));
            }
            assert(x =~= y);
        },
        (Ok(x), Err(e)) => {
            let i = choose|i: int|
                0 <= i < outcomes.len() && #[trigger] outcomes[i] == Err::<char, ConvertError>(e)
                    && forall|j: int| 0 <= j < i ==> (#[trigger] outcomes[j]).is_ok();
            assert(outcomes[i] == Ok::<char, ConvertError>(x[i]));
        },
        (Err(e), Ok(y)) => {
            let i = choose|i: int|
                0 <= i < outcomes.len() && #[trigger] outcomes[i] == Err::<char, ConvertError>(e)
                    && forall|j: int| 0 <= j < i ==> (#[trigger] outcomes[j]).is_ok();
            assert(outcomes[i] == Ok::<char, ConvertError>(y[i]));
        },
        (Err(e), Err(f)) => {
            let i = choose|i: int|
                0 <= i < outcomes.len() && #[trigger] outcomes[i] == Err::<char, ConvertError>(e)
                    && forall|j: int| 0 <= j < i ==> (#[trigger] outcomes[j]).is_ok();
            let k = choose|k: int|
                0 <= k < outcomes.len() && #[trigger] outcomes[k] == Err::<char, ConvertError>(f)
                    && forall|j: int| 0 <= j < k ==> (#[trigger] outcomes[j]).is_ok();
            if i < k {
                assert(outcomes[i].is_ok());
            } else if k < i {
                assert(outcomes[k].is_ok());
            }
        },
    }
}

/// The two-pass conversion gives every cell the character of the edge
/// pass unless that is blank, and then the character of the luminance pass.
pub proof fn lemma_two_pass(
    font: Font,
    img: LumaImage<i32>,
    convert: Converter,
    layout: Layout,
    brightness_offset: int,
    noise: NoiseSource,
    concurrency: int,
    base: Seq<char>,
    edge: Seq<char>,
    both: Seq<char>,
)
    requires
        converted(
            font,
            img,
            convert,
            layout,
            brightness_offset,
            ConversionAlgorithm::Base,
            noise,
            concurrency,
            Ok(base),
        ),
        converted(
            font,
            img,
            convert,
            layout,
            brightness_offset,
            ConversionAlgorithm::Edge,
            noise,
            concurrency,
            Ok(edge),
        ),
        converted(
            font,
            img,
            convert,
            layout,
            brightness_offset,
            ConversionAlgorithm::TwoPass,
            noise,
            concurrency,
            Ok(both),
        ),
    ensures
        both.len() == base.len(),
        both.len() == edge.len(),
        forall|i: int|
            0 <= i < both.len() ==> #[trigger] both[i] == (if edge[i] == ' ' {
                base[i]
            } else {
                edge[i]
            }),
{
    let luma = darkened(luma_samples(img, layout), brightness_offset);
    let edges = darkened(edge_samples(img, layout), brightness_offset);
    let (l, e) = choose|l: Result<Seq<char>, ConvertError>, e: Result<Seq<char>, ConvertError>|
        #![trigger combined(l, e)]
        gathered(pass_outcomes(convert, font, luma, layout, noise, concurrency), l) && gathered(
            pass_outcomes(Converter::Direction, font, edges, layout, noise, concurrency),
            e,
        ) && Ok::<Seq<char>, ConvertError>(both) == combined(l, e);
    lemma_gathered_unique(pass_outcomes(convert, font, luma, layout, noise, concurrency), l, Ok(base));
    lemma_gathered_unique(pass_outcomes(Converter::Direction, font, edges, layout, noise, concurrency), e, Ok(edge));
    assert(both == merged(base, edge));
}

/// Without offsets a conversion comes to the same with any two numbers of
/// workers.
pub proof fn lemma_conversion_without_noise(
    font: Font,
    img: LumaImage<i32>,
    convert: Converter,
    layout: Layout,
    brightness_offset: int,
    algorithm: ConversionAlgorithm,
    noise: NoiseSource,
    a: int,
    b: int,
    r: Result<Seq<char>, ConvertError>,
)
    requires
        noise.scale == 0,
        converted(font, img, convert, layout, brightness_offset, algorithm, noise, a, r),
    ensures
        converted(font, img, convert, layout, brightness_offset, algorithm, noise, b, r),
{
    let luma = darkened(luma_samples(img, layout), brightness_offset);
    let edges = darkened(edge_samples(img, layout), brightness_offset);
    let both = overlaid(luma_samples(img, layout), edge_samples(img, layout), brightness_offset);
    let w = layout.out_img_width as int;
    let h = layout.out_img_height as int;
    let fw = font.width as int;
    let fh = font.height as int;
    lemma_concurrency_without_noise(convert, font, chunks_of(luma, w, h, fw, fh), noise, a, b);
    lemma_concurrency_without_noise(Converter::Direction, font, chunks_of(edges, w, h, fw, fh), noise, a, b);
    lemma_concurrency_without_noise(convert, font, chunks_of(both, w, h, fw, fh), noise, a, b);
    if algorithm == ConversionAlgorithm::TwoPass {
        let (l, e) = choose|l: Result<Seq<char>, ConvertError>, e: Result<Seq<char>, ConvertError>|
            #![trigger combined(l, e)]
            gathered(pass_outcomes(convert, font, luma, layout, noise, a), l) && gathered(
                pass_outcomes(Converter::Direction, font, edges, layout, noise, a),
                e,
            ) && r == combined(l, e);
        assert(gathered(pass_outcomes(convert, font, luma, layout, noise, b), l));
        assert(gathered(pass_outcomes(Converter::Direction, font, edges, layout, noise, b), e));
        assert(r == combined(l, e));
    }
}

} // verus!
