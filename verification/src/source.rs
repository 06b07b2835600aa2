//! The arguments of `Read` and `ReadAlpha`, and the clips they describe.

use vstd::prelude::*;

use crate::clip;
use crate::clip::{invalid_frame, query_format, Clip};
use crate::decoder::ImageInfo;
use crate::error::{self, ImgSeqError};
use crate::frame::{ColorFamily, SampleType, VideoFormat};
use crate::pixel::pixel_format;
use crate::pixel::pixel_format::saturating_product;
use crate::pixel::planar;
use crate::pixel::planar::append_size;
use crate::pixel::PixelFormat;
use crate::prefetch::budget::MAX_WORKERS;
use crate::prefetch::pool;
use crate::prefetch::pool::out_of_range;
use crate::text;
use crate::text::{decimal, decimal_signed};

verus! {

/// How an integer argument was given.
#[derive(Debug)]
pub enum Argument {
    Given(i64),
    Missing,
    /// The argument cannot be read, in the words of the error.
    Invalid(String),
}

/// What an argument that cannot be read is refused with.
pub open spec fn argument_text(key: Seq<char>, index: int, problem: Seq<char>) -> Seq<char> {
    "invalid "@ + key + "["@ + text::signed_text(index) + "] argument: "@ + problem
}

/// Error for an argument that cannot be read.
pub fn map_error(key: &str, index: i32, problem: &str) -> (error: ImgSeqError)
    ensures
        error@ == error::error_text(argument_text(key@, index as int, problem@)),
{
    let mut message = String::from_str("invalid ");
    message.append(key);
    message.append("[");
    let digits = decimal_signed(index as i64);
    message.append(digits.as_str());
    message.append("] argument: ");
    message.append(problem);
    ImgSeqError::new(message)
}

/// The value of an optional argument, or why it has none.
pub open spec fn optional(argument: Argument, name: Seq<char>) -> Result<Option<i64>, Seq<char>> {
    match argument {
        Argument::Given(value) => Ok(Some(value)),
        Argument::Missing => Ok(None),
        Argument::Invalid(problem) => Err(argument_text(name, 0, problem@)),
    }
}

/// Reads an optional integer argument.
pub fn read_optional_int(argument: &Argument, name: &str) -> (value: Result<
    Option<i64>,
    ImgSeqError,
>)
    ensures
        match (value, optional(*argument, name@)) {
            (Ok(value), Ok(expected)) => value == expected,
            (Err(error), Err(message)) => error@ == error::error_text(message),
            _ => false,
        },
{
    match argument {
        Argument::Given(value) => Ok(Some(*value)),
        Argument::Missing => Ok(None),
        Argument::Invalid(problem) => Err(map_error(name, 0, problem.as_str())),
    }
}

/// How many files are read, or why none are.
pub fn files_count(count: Option<i32>) -> (files: Result<i32, ImgSeqError>)
    ensures
        match count {
            None => error::fails_with(
                files,
                "Read requires at least one file in the files argument"@,
            ),
            Some(count) => if count <= 0 {
                error::fails_with(files, "Read requires at least one file"@)
            } else {
                files == Ok::<i32, ImgSeqError>(count)
            },
        },
{
    match count {
        None => Err(
            ImgSeqError::from_display("Read requires at least one file in the files argument"),
        ),
        Some(count) => if count <= 0 {
            Err(ImgSeqError::from_display("Read requires at least one file"))
        } else {
            Ok(count)
        },
    }
}

/// The greatest common divisor of two numbers.
pub open spec fn gcd_of(left: nat, right: nat) -> nat
    decreases right,
{
    if right == 0 {
        left
    } else {
        gcd_of(right, left % right)
    }
}

/// Whether `divisor` divides `number`.
pub open spec fn divides(divisor: nat, number: nat) -> bool {
    exists|quotient: nat| #[trigger] (quotient * divisor) == number
}

/// The size of a number without its sign.
pub open spec fn magnitude(number: i64) -> nat {
    if number < 0 {
        -number as nat
    } else {
        number as nat
    }
}

fn unsigned(number: i64) -> (size: u64)
    ensures
        size == magnitude(number),
{
    if number < 0 {
        (-(number + 1)) as u64 + 1
    } else {
        number as u64
    }
}

/// The greatest common divisor of two numbers.
pub fn gcd(left: i64, right: i64) -> (divisor: i64)
    requires
        gcd_of(magnitude(left), magnitude(right)) <= i64::MAX,
    ensures
        divisor == gcd_of(magnitude(left), magnitude(right)),
{
    let mut larger: u64 = unsigned(left);
    let mut smaller: u64 = unsigned(right);
    while smaller != 0
        invariant
            gcd_of(larger as nat, smaller as nat) == gcd_of(magnitude(left), magnitude(right)),
        decreases smaller,
    {
        let rest: u64 = larger % smaller;
        larger = smaller;
        smaller = rest;
    }
    larger as i64
}

proof fn lemma_divides_sum(divisor: nat, first: nat, second: nat, times: nat)
    requires
        divides(divisor, first),
        divides(divisor, second),
    ensures
        divides(divisor, times * first + second),
{
    let one = choose|quotient: nat| #[trigger] (quotient * divisor) == first;
    let two = choose|quotient: nat| #[trigger] (quotient * divisor) == second;
    let both = times * one + two;
    assert(both * divisor == times * first + second) by (nonlinear_arith)
        requires
            both == times * one + two,
            one * divisor == first,
            two * divisor == second,
    ;
}

proof fn lemma_divides_rest(divisor: nat, whole: nat, part: nat)
    requires
        divides(divisor, whole),
        divides(divisor, part),
        0 < part,
    ensures
        divides(divisor, whole % part),
{
    let one = choose|quotient: nat| #[trigger] (quotient * divisor) == whole;
    let two = choose|quotient: nat| #[trigger] (quotient * divisor) == part;
    vstd::arithmetic::div_mod::lemma_fundamental_div_mod(whole as int, part as int);
    vstd::arithmetic::div_mod::lemma_mod_bound(whole as int, part as int);
    let times = whole / part;
    let rest = whole % part;
    if divisor == 0 {
        assert(part == 0) by (nonlinear_arith)
            requires
                two * divisor == part,
                divisor == 0,
        ;
    } else {
        assert((one - times * two) * divisor == rest) by (nonlinear_arith)
            requires
                whole == part * times + rest,
                one * divisor == whole,
                two * divisor == part,
        ;
        assert(one - times * two >= 0) by (nonlinear_arith)
            requires
                (one - times * two) * divisor == rest,
                0 <= rest,
                0 < divisor,
        ;
        let left = (one - times * two) as nat;
        assert(left * divisor == rest);
    }
}

/// What [`gcd_of`] names divides both numbers, and every number that divides
/// both divides it.
pub proof fn the_divisor_is_the_greatest(left: nat, right: nat, other: nat)
    ensures
        divides(gcd_of(left, right), left),
        divides(gcd_of(left, right), right),
        divides(other, left) && divides(other, right) ==> divides(other, gcd_of(left, right)),
    decreases right,
{
    if right == 0 {
        assert(1 * left == left) by (nonlinear_arith);
        assert(0 * left == 0) by (nonlinear_arith);
        assert(divides(left, left));
        assert(divides(left, 0));
    } else {
        let rest = left % right;
        the_divisor_is_the_greatest(right, rest, other);
        let divisor = gcd_of(left, right);
        lemma_divides_sum(divisor, right, rest, left / right);
        vstd::arithmetic::div_mod::lemma_fundamental_div_mod(left as int, right as int);
        assert((left / right) * right + rest == left) by (nonlinear_arith)
            requires
                left == right * (left / right) + rest,
        ;
        if divides(other, left) && divides(other, right) {
            lemma_divides_rest(other, left, right);
        }
    }
}

proof fn lemma_gcd_positive(left: nat, right: nat)
    requires
        0 < left,
        0 < right,
    ensures
        0 < gcd_of(left, right),
        gcd_of(left, right) <= left,
        gcd_of(left, right) <= right,
{
    the_divisor_is_the_greatest(left, right, 0);
    let divisor = gcd_of(left, right);
    let one = choose|quotient: nat| #[trigger] (quotient * divisor) == left;
    let two = choose|quotient: nat| #[trigger] (quotient * divisor) == right;
    assert(0 < divisor && divisor <= left) by (nonlinear_arith)
        requires
            one * divisor == left,
            0 < left,
            0 <= divisor,
            0 <= one,
    ;
    assert(divisor <= right) by (nonlinear_arith)
        requires
            two * divisor == right,
            0 < right,
            0 <= divisor,
            0 <= two,
    ;
}

/// What a frame rate that is not positive is refused with.
pub open spec fn rate_text(fps_num: i64, fps_den: i64) -> Seq<char> {
    "fpsnum and fpsden must be positive, got "@ + text::signed_text(fps_num as int) + "/"@
        + text::signed_text(fps_den as int)
}

/// A frame rate in its lowest terms, or why it is none.
pub open spec fn reduced_rate(fps_num: i64, fps_den: i64) -> Result<(i64, i64), Seq<char>> {
    if fps_num <= 0 || fps_den <= 0 {
        Err(rate_text(fps_num, fps_den))
    } else {
        let divisor = gcd_of(fps_num as nat, fps_den as nat);
        Ok(((fps_num as nat / divisor) as i64, (fps_den as nat / divisor) as i64))
    }
}

/// Reduces a frame rate to its lowest terms.
pub fn reduce_fps(fps_num: i64, fps_den: i64) -> (rate: Result<(i64, i64), ImgSeqError>)
    ensures
        match (rate, reduced_rate(fps_num, fps_den)) {
            (Ok(rate), Ok(expected)) => rate == expected,
            (Err(error), Err(message)) => error@ == error::error_text(message),
            _ => false,
        },
{
    if fps_num <= 0 || fps_den <= 0 {
        let mut message = String::from_str("fpsnum and fpsden must be positive, got ");
        let numerator = decimal_signed(fps_num);
        message.append(numerator.as_str());
        message.append("/");
        let denominator = decimal_signed(fps_den);
        message.append(denominator.as_str());
        return Err(ImgSeqError::new(message));
    }
    proof {
        lemma_gcd_positive(fps_num as nat, fps_den as nat);
    }
    let divisor: i64 = gcd(fps_num, fps_den);
    Ok((fps_num / divisor, fps_den / divisor))
}

/// A reduced frame rate is the rate it was reduced from, and nothing divides
/// both of its terms any more.
pub proof fn a_reduced_rate_is_the_same_rate_in_lowest_terms(fps_num: i64, fps_den: i64)
    requires
        0 < fps_num,
        0 < fps_den,
    ensures
        reduced_rate(fps_num, fps_den) matches Ok((num, den)) && {
            &&& 0 < num <= fps_num
            &&& 0 < den <= fps_den
            &&& num * fps_den == den * fps_num
            &&& gcd_of(num as nat, den as nat) == 1
        },
{
    let left = fps_num as nat;
    let right = fps_den as nat;
    let divisor = gcd_of(left, right);
    lemma_gcd_positive(left, right);
    the_divisor_is_the_greatest(left, right, 1);
    let num = choose|quotient: nat| #[trigger] (quotient * divisor) == left;
    let den = choose|quotient: nat| #[trigger] (quotient * divisor) == right;
    vstd::arithmetic::div_mod::lemma_div_multiples_vanish(num as int, divisor as int);
    vstd::arithmetic::div_mod::lemma_div_multiples_vanish(den as int, divisor as int);
    assert(divisor * num == left && divisor * den == right) by (nonlinear_arith)
        requires
            num * divisor == left,
            den * divisor == right,
    ;
    assert(left / divisor == num);
    assert(right / divisor == den);
    assert(0 < num <= left && 0 < den <= right) by (nonlinear_arith)
        requires
            num * divisor == left,
            den * divisor == right,
            0 < left,
            0 < right,
            0 < divisor,
            0 <= num,
            0 <= den,
    ;
    assert(num * right == den * left) by (nonlinear_arith)
        requires
            num * divisor == left,
            den * divisor == right,
    ;
    let common = gcd_of(num, den);
    the_divisor_is_the_greatest(num, den, 1);
    let first = choose|quotient: nat| #[trigger] (quotient * common) == num;
    let second = choose|quotient: nat| #[trigger] (quotient * common) == den;
    let product = common * divisor;
    assert(first * product == left && second * product == right) by (nonlinear_arith)
        requires
            first * common == num,
            second * common == den,
            num * divisor == left,
            den * divisor == right,
            product == common * divisor,
    ;
    assert(divides(product, left));
    assert(divides(product, right));
    the_divisor_is_the_greatest(left, right, product);
    let times = choose|quotient: nat| #[trigger] (quotient * product) == divisor;
    lemma_gcd_positive(num, den);
    assert(common == 1) by (nonlinear_arith)
        requires
            times * product == divisor,
            product == common * divisor,
            0 < divisor,
            0 < common,
            0 <= times,
    ;
}

/// What a negative number of workers is refused with.
pub open spec fn workers_text(value: i64) -> Seq<char> {
    "prefetch must be zero or a positive number of worker threads, got "@ + text::signed_text(
        value as int,
    )
}

/// Resolves the `prefetch` argument, on a machine whose own choice is
/// `automatic`.
pub fn resolve_prefetch_workers(requested: Option<i64>, automatic: usize) -> (workers: Result<
    usize,
    ImgSeqError,
>)
    ensures
        match requested {
            None => workers == Ok::<usize, ImgSeqError>(automatic),
            Some(value) => if value < 0 {
                error::fails_with(workers, workers_text(value))
            } else if value > MAX_WORKERS {
                workers == Ok::<usize, ImgSeqError>(MAX_WORKERS)
            } else {
                workers == Ok::<usize, ImgSeqError>(value as usize)
            },
        },
{
    match requested {
        None => Ok(automatic),
        Some(value) => {
            if value < 0 {
                let mut message = String::from_str(
                    "prefetch must be zero or a positive number of worker threads, got ",
                );
                let digits = decimal_signed(value);
                message.append(digits.as_str());
                return Err(ImgSeqError::new(message));
            }
            if value > MAX_WORKERS as i64 {
                Ok(MAX_WORKERS)
            } else {
                Ok(value as usize)
            }
        },
    }
}

/// What a budget without any memory is refused with.
pub open spec fn memory_text(value: i64) -> Seq<char> {
    "prefetch_memory must be at least 1 MiB, got "@ + text::signed_text(value as int)
        + "; use prefetch=0 to disable lookahead decoding"@
}

/// The smaller of a number and the largest a `usize` holds.
fn to_size(value: i64) -> (size: usize)
    requires
        0 <= value,
    ensures
        size == pixel_format::saturated(value as int),
{
    if value as u64 > usize::MAX as u64 {
        usize::MAX
    } else {
        value as usize
    }
}

/// Decoded data budget for the lookahead pool, in bytes.
///
/// `None` lets the pool size it from the worker count and the largest frame of
/// the sequence, which is what `prefetch_memory` exists to override.
pub fn resolve_prefetch_memory(requested: Option<i64>) -> (budget: Result<
    Option<usize>,
    ImgSeqError,
>)
    ensures
        match requested {
            None => budget == Ok::<Option<usize>, ImgSeqError>(None),
            Some(value) => if value < 1 {
                error::fails_with(budget, memory_text(value))
            } else {
                budget == Ok::<Option<usize>, ImgSeqError>(
                    Some(pixel_format::saturated(value * 1024 * 1024) as usize),
                )
            },
        },
{
    match requested {
        None => Ok(None),
        Some(value) => {
            if value < 1 {
                let mut message = String::from_str("prefetch_memory must be at least 1 MiB, got ");
                let digits = decimal_signed(value);
                message.append(digits.as_str());
                message.append("; use prefetch=0 to disable lookahead decoding");
                return Err(ImgSeqError::new(message));
            }
            Ok(Some(saturating_product(to_size(value), 1024 * 1024)))
        },
    }
}

/// The integer arguments of a call.
#[derive(Debug)]
pub struct Arguments {
    pub fpsnum: Argument,
    pub fpsden: Argument,
    pub mismatch: Argument,
    pub apply_rotation: Argument,
    pub debug: Argument,
    pub prefetch: Argument,
    pub prefetch_memory: Argument,
}

/// What the integer arguments of a call ask for.
#[derive(Clone, Copy, Debug, PartialEq, Eq, Structural)]
pub struct Options {
    pub fps_num: i64,
    pub fps_den: i64,
    /// Whether a clip of varying frames is allowed.
    pub mismatch: bool,
    /// Whether the exif orientation is applied to the pixels.
    pub apply_rotation: bool,
    pub debug: bool,
    pub prefetch_workers: usize,
    pub prefetch_memory: Option<usize>,
}

/// `value`, or `default` where there is none.
pub open spec fn or_default(value: Option<i64>, default: i64) -> i64 {
    match value {
        Some(value) => value,
        None => default,
    }
}

/// The first argument of a call that cannot be read, in the order they are read
/// in, with the reason. A worker count and a budget are refused where they are
/// read, and a frame rate once all are.
pub open spec fn first_problem(arguments: Arguments) -> Option<Seq<char>> {
    let prefetch = optional(arguments.prefetch, "prefetch"@);
    let memory = optional(arguments.prefetch_memory, "prefetch_memory"@);
    if optional(arguments.fpsnum, "fpsnum"@) is Err {
        Some(optional(arguments.fpsnum, "fpsnum"@)->Err_0)
    } else if optional(arguments.fpsden, "fpsden"@) is Err {
        Some(optional(arguments.fpsden, "fpsden"@)->Err_0)
    } else if optional(arguments.mismatch, "mismatch"@) is Err {
        Some(optional(arguments.mismatch, "mismatch"@)->Err_0)
    } else if optional(arguments.apply_rotation, "apply_rotation"@) is Err {
        Some(optional(arguments.apply_rotation, "apply_rotation"@)->Err_0)
    } else if optional(arguments.debug, "debug"@) is Err {
        Some(optional(arguments.debug, "debug"@)->Err_0)
    } else if prefetch is Err {
        Some(prefetch->Err_0)
    } else if prefetch->Ok_0 matches Some(value) && value < 0 {
        Some(workers_text(prefetch->Ok_0->Some_0))
    } else if memory is Err {
        Some(memory->Err_0)
    } else if memory->Ok_0 matches Some(value) && value < 1 {
        Some(memory_text(memory->Ok_0->Some_0))
    } else {
        let fps_num = or_default(optional(arguments.fpsnum, "fpsnum"@)->Ok_0, 24);
        let fps_den = or_default(optional(arguments.fpsden, "fpsden"@)->Ok_0, 1);
        match reduced_rate(fps_num, fps_den) {
            Err(message) => Some(message),
            Ok(_) => None,
        }
    }
}

/// What the arguments of a call that can all be read ask for.
pub open spec fn resolved(arguments: Arguments, automatic: usize) -> Options {
    let fps_num = or_default(optional(arguments.fpsnum, "fpsnum"@)->Ok_0, 24);
    let fps_den = or_default(optional(arguments.fpsden, "fpsden"@)->Ok_0, 1);
    Options {
        fps_num: reduced_rate(fps_num, fps_den)->Ok_0.0,
        fps_den: reduced_rate(fps_num, fps_den)->Ok_0.1,
        mismatch: or_default(optional(arguments.mismatch, "mismatch"@)->Ok_0, 0) != 0,
        apply_rotation: or_default(optional(arguments.apply_rotation, "apply_rotation"@)->Ok_0, 1)
            != 0,
        debug: or_default(optional(arguments.debug, "debug"@)->Ok_0, 0) != 0,
        prefetch_workers: match optional(arguments.prefetch, "prefetch"@)->Ok_0 {
            None => automatic,
            Some(value) => if value > MAX_WORKERS {
                MAX_WORKERS
            } else {
                value as usize
            },
        },
        prefetch_memory: match optional(arguments.prefetch_memory, "prefetch_memory"@)->Ok_0 {
            None => None,
            Some(value) => Some(pixel_format::saturated(value * 1024 * 1024) as usize),
        },
    }
}

/// The value of an optional argument with a default.
fn read_int(argument: &Argument, name: &str, default: i64) -> (value: Result<i64, ImgSeqError>)
    ensures
        match (value, optional(*argument, name@)) {
            (Ok(value), Ok(expected)) => value == or_default(expected, default),
            (Err(error), Err(message)) => error@ == error::error_text(message),
            _ => false,
        },
{
    match read_optional_int(argument, name) {
        Ok(Some(value)) => Ok(value),
        Ok(None) => Ok(default),
        Err(error) => Err(error),
    }
}

/// Resolves the integer arguments of a call, on a machine whose own choice of
/// workers is `automatic`.
///
/// Rotating is the default because that is what every other source of a single
/// picture does with the orientation a file states, and `apply_rotation=0` is
/// there for the callers that would rather move the samples themselves.
pub fn resolve(arguments: &Arguments, automatic: usize) -> (options: Result<Options, ImgSeqError>)
    ensures
        match first_problem(*arguments) {
            Some(message) => error::fails_with(options, message),
            None => options == Ok::<Options, ImgSeqError>(resolved(*arguments, automatic)),
        },
{
    let fps_num: i64 = match read_int(&arguments.fpsnum, "fpsnum", 24) {
        Ok(value) => value,
        Err(error) => {
            return Err(error);
        },
    };
    let fps_den: i64 = match read_int(&arguments.fpsden, "fpsden", 1) {
        Ok(value) => value,
        Err(error) => {
            return Err(error);
        },
    };
    let mismatch: i64 = match read_int(&arguments.mismatch, "mismatch", 0) {
        Ok(value) => value,
        Err(error) => {
            return Err(error);
        },
    };
    let apply_rotation: i64 = match read_int(&arguments.apply_rotation, "apply_rotation", 1) {
        Ok(value) => value,
        Err(error) => {
            return Err(error);
        },
    };
    let debug: i64 = match read_int(&arguments.debug, "debug", 0) {
        Ok(value) => value,
        Err(error) => {
            return Err(error);
        },
    };
    let requested_workers = match read_optional_int(&arguments.prefetch, "prefetch") {
        Ok(value) => value,
        Err(error) => {
            return Err(error);
        },
    };
    let prefetch_workers: usize = match resolve_prefetch_workers(requested_workers, automatic) {
        Ok(workers) => workers,
        Err(error) => {
            return Err(error);
        },
    };
    let requested_memory = match read_optional_int(&arguments.prefetch_memory, "prefetch_memory") {
        Ok(value) => value,
        Err(error) => {
            return Err(error);
        },
    };
    let prefetch_memory = match resolve_prefetch_memory(requested_memory) {
        Ok(budget) => budget,
        Err(error) => {
            return Err(error);
        },
    };
    let (fps_num, fps_den) = match reduce_fps(fps_num, fps_den) {
        Ok(rate) => rate,
        Err(error) => {
            return Err(error);
        },
    };
    Ok(
        Options {
            fps_num,
            fps_den,
            mismatch: mismatch != 0,
            apply_rotation: apply_rotation != 0,
            debug: debug != 0,
            prefetch_workers,
            prefetch_memory,
        },
    )
}

/// The size an image is handed out as.
pub open spec fn output_of(image: ImageInfo) -> (int, int) {
    image.transform.size(image.width as int, image.height as int)
}

/// Whether two images are handed out as frames of the same size and format.
pub open spec fn alike(image: ImageInfo, first: ImageInfo) -> bool {
    output_of(image) == output_of(first) && image.format == first.format
}

fn are_alike(image: &ImageInfo, first: &ImageInfo) -> (same: bool)
    ensures
        same == alike(*image, *first),
{
    image.output_width() == first.output_width() && image.output_height() == first.output_height()
        && image.format == first.format
}

/// The first image from `at` on that is not like the first of the sequence.
pub open spec fn odd_one(images: Seq<ImageInfo>, at: int) -> Option<int>
    decreases images.len() - at,
{
    if at >= images.len() {
        None
    } else if !alike(images[at], images[0]) {
        Some(at)
    } else {
        odd_one(images, at + 1)
    }
}

/// What a sequence whose image at `index` is not like the first is refused with.
pub open spec fn mismatch_text(images: Seq<ImageInfo>, index: int) -> Seq<char> {
    let image = images[index];
    let first = images[0];
    "frame "@ + text::decimal_text(index as nat) + " ('"@ + image.path@ + "') has "@
        + planar::size_text(output_of(image).0, output_of(image).1) + " "@ + image.format.text()
        + ", expected frame 0 ('"@ + first.path@ + "') to be "@ + planar::size_text(
        output_of(first).0,
        output_of(first).1,
    ) + " "@ + first.format.text()
}

/// Why a sequence is refused, if it is.
pub open spec fn sequence_problem(images: Seq<ImageInfo>, mismatch: bool) -> Option<Seq<char>> {
    if images.len() == 0 {
        Some("Read requires at least one file"@)
    } else if mismatch {
        None
    } else {
        match odd_one(images, 1) {
            Some(index) => Some(mismatch_text(images, index)),
            None => None,
        }
    }
}

fn mismatch_error(images: &Vec<ImageInfo>, index: usize) -> (error: ImgSeqError)
    requires
        index < images@.len(),
    ensures
        error@ == error::error_text(mismatch_text(images@, index as int)),
{
    let image = &images[index];
    let first = &images[0];
    let mut message = String::from_str("frame ");
    let digits = decimal(index as u64);
    message.append(digits.as_str());
    message.append(" ('");
    message.append(image.path.as_str());
    message.append("') has ");
    let mut message = append_size(
        message,
        image.output_width() as usize,
        image.output_height() as usize,
    );
    message.append(" ");
    message.append(image.format.name());
    message.append(", expected frame 0 ('");
    message.append(first.path.as_str());
    message.append("') to be ");
    let mut message = append_size(
        message,
        first.output_width() as usize,
        first.output_height() as usize,
    );
    message.append(" ");
    message.append(first.format.name());
    ImgSeqError::new(message)
}

/// Finds the first image that is not like the first of the sequence.
fn find_odd(images: &Vec<ImageInfo>) -> (index: Option<usize>)
    requires
        0 < images@.len(),
    ensures
        match index {
            Some(index) => odd_one(images@, 1) == Some(index as int) && index < images@.len(),
            None => odd_one(images@, 1) is None,
        },
{
    let mut index: usize = 1;
    while index < images.len()
        invariant
            1 <= index <= images@.len(),
            odd_one(images@, 1) == odd_one(images@, index as int),
        decreases images@.len() - index,
    {
        if !are_alike(&images[index], &images[0]) {
            return Some(index);
        }
        index = index + 1;
    }
    None
}

/// Checks that the images of a sequence can be one clip. The size the frames
/// will be is the size an image is handed out as, so that is what a folder has
/// to agree on.
pub fn validate_images(images: Vec<ImageInfo>, mismatch: bool) -> (checked: Result<
    Vec<ImageInfo>,
    ImgSeqError,
>)
    ensures
        match sequence_problem(images@, mismatch) {
            Some(message) => error::fails_with(checked, message),
            None => checked == Ok::<Vec<ImageInfo>, ImgSeqError>(images),
        },
{
    if images.len() == 0 {
        return Err(ImgSeqError::from_display("Read requires at least one file"));
    }
    if !mismatch {
        match find_odd(&images) {
            Some(index) => {
                return Err(mismatch_error(&images, index));
            },
            None => {},
        }
    }
    Ok(images)
}

/// Whether the images of a sequence are handed out as frames that differ.
pub fn has_format_mismatch(images: &Vec<ImageInfo>) -> (varies: bool)
    requires
        0 < images@.len(),
    ensures
        varies == odd_one(images@, 1) is Some,
{
    find_odd(images).is_some()
}

proof fn lemma_odd_one(images: Seq<ImageInfo>, at: int, index: int)
    requires
        0 <= at <= index < images.len(),
        odd_one(images, at) is None,
    ensures
        alike(images[index], images[0]),
    decreases images.len() - at,
{
    if at < index {
        lemma_odd_one(images, at + 1, index);
    }
}

/// Without `mismatch`, every frame of a sequence that is accepted has the size
/// and the format of the first.
pub proof fn without_mismatch_every_frame_is_alike(images: Seq<ImageInfo>, index: int)
    requires
        sequence_problem(images, false) is None,
        0 <= index < images.len(),
    ensures
        alike(images[index], images[0]),
{
    if index > 0 {
        lemma_odd_one(images, 1, index);
    }
}

/// The format of a clip whose frames are not all of one.
pub open spec fn no_format() -> VideoFormat {
    VideoFormat {
        color_family: ColorFamily::Undefined,
        sample_type: SampleType::Integer,
        bits_per_sample: 0,
        bytes_per_sample: 0,
        sub_sampling_w: 0,
        sub_sampling_h: 0,
        num_planes: 0,
    }
}

/// The format of a clip whose frames are not all of one.
pub fn undefined_video_format() -> (format: VideoFormat)
    ensures
        format == no_format(),
{
    VideoFormat {
        color_family: ColorFamily::Undefined,
        sample_type: SampleType::Integer,
        bits_per_sample: 0,
        bytes_per_sample: 0,
        sub_sampling_w: 0,
        sub_sampling_h: 0,
        num_planes: 0,
    }
}

/// What a clip declares about its frames.
#[derive(Clone, Copy, Debug, PartialEq, Eq, Structural)]
pub struct VideoInfo {
    pub format: VideoFormat,
    pub fps_num: i64,
    pub fps_den: i64,
    pub width: i32,
    pub height: i32,
    pub num_frames: i32,
}

/// The validated arguments of one `Read` or `ReadAlpha` call.
pub struct SequenceArgs {
    pub images: Vec<ImageInfo>,
    pub options: Options,
    pub format: PixelFormat,
    pub width: i32,
    pub height: i32,
    pub num_frames: i32,
    /// True when the sequence is not one single size and format.
    pub variable: bool,
}

/// Why the probed images of a call are no clip, if they are not. The clip is the
/// size the frames are written as, which a transposing orientation swaps
/// relative to the size the files hold.
pub open spec fn clip_problem(images: Seq<ImageInfo>, options: Options) -> Option<Seq<char>> {
    match sequence_problem(images, options.mismatch) {
        Some(message) => Some(message),
        None => if images.len() > i32::MAX {
            Some("the image sequence has too many frames"@)
        } else if odd_one(images, 1) is Some {
            None
        } else if output_of(images[0]).0 > i32::MAX {
            Some("image width does not fit VapourSynth"@)
        } else if output_of(images[0]).1 > i32::MAX {
            Some("image height does not fit VapourSynth"@)
        } else {
            None
        },
    }
}

/// Whether `args` are the arguments of a call with these images.
pub open spec fn describes(args: SequenceArgs, images: Vec<ImageInfo>, options: Options) -> bool {
    &&& args.images == images
    &&& args.options == options
    &&& args.format == images@[0].format
    &&& args.num_frames == images@.len()
    &&& args.variable == odd_one(images@, 1) is Some
    &&& args.width == (if args.variable {
        0
    } else {
        output_of(images@[0]).0
    })
    &&& args.height == (if args.variable {
        0
    } else {
        output_of(images@[0]).1
    })
}

impl SequenceArgs {
    /// Validates the probed images of one call.
    pub fn read(images: Vec<ImageInfo>, options: Options) -> (args: Result<Self, ImgSeqError>)
        ensures
            match clip_problem(images@, options) {
                Some(message) => error::fails_with(args, message),
                None => args matches Ok(args) && describes(args, images, options),
            },
    {
        let images = match validate_images(images, options.mismatch) {
            Ok(images) => images,
            Err(error) => {
                return Err(error);
            },
        };
        if images.len() as u64 > i32::MAX as u64 {
            return Err(ImgSeqError::from_display("the image sequence has too many frames"));
        }
        let num_frames: i32 = images.len() as i32;
        let variable = options.mismatch && has_format_mismatch(&images);
        let (width, height): (i32, i32) = if variable {
            (0, 0)
        } else {
            let width: u32 = images[0].output_width();
            let height: u32 = images[0].output_height();
            if width > i32::MAX as u32 {
                return Err(ImgSeqError::from_display("image width does not fit VapourSynth"));
            }
            if height > i32::MAX as u32 {
                return Err(ImgSeqError::from_display("image height does not fit VapourSynth"));
            }
            (width as i32, height as i32)
        };
        let format = images[0].format;
        Ok(SequenceArgs { images, options, format, width, height, num_frames, variable })
    }

    /// What a clip of this sequence declares.
    pub open spec fn declared(self, clip: Clip) -> VideoInfo {
        VideoInfo {
            format: if self.variable {
                no_format()
            } else {
                VideoFormat::of(clip.format_of(self.format))
            },
            fps_num: self.options.fps_num,
            fps_den: self.options.fps_den,
            width: if self.variable {
                0
            } else {
                self.width
            },
            height: if self.variable {
                0
            } else {
                self.height
            },
            num_frames: self.num_frames,
        }
    }

    /// Output format of one clip of this sequence.
    pub fn video_info(&self, clip: Clip) -> (info: VideoInfo)
        ensures
            info == self.declared(clip),
    {
        let fps_num: i64 = self.options.fps_num;
        let fps_den: i64 = self.options.fps_den;
        if self.variable {
            return VideoInfo {
                format: undefined_video_format(),
                fps_num,
                fps_den,
                width: 0,
                height: 0,
                num_frames: self.num_frames,
            };
        }
        VideoInfo {
            format: query_format(clip.pixel_format(self.format)),
            fps_num,
            fps_den,
            width: self.width,
            height: self.height,
            num_frames: self.num_frames,
        }
    }
}

/// With `mismatch`, a sequence of frames that differ is accepted, however they
/// differ, and declares neither a size nor a format, so that each frame keeps its
/// own.
pub proof fn with_mismatch_each_frame_keeps_its_own_size_and_format(
    args: SequenceArgs,
    images: Vec<ImageInfo>,
    options: Options,
    index: int,
    clip: Clip,
)
    requires
        options.mismatch,
        0 < images@.len() <= i32::MAX,
        0 <= index < images@.len(),
        !alike(images@[index], images@[0]),
    ensures
        clip_problem(images@, options) is None,
        describes(args, images, options) ==> {
            let declared = args.declared(clip);
            &&& declared.width == 0
            &&& declared.height == 0
            &&& declared.format == no_format()
            &&& declared.num_frames == images@.len()
        },
{
    if odd_one(images@, 1) is None {
        lemma_odd_one(images@, 1, index);
    }
}

/// Both clips of a call share the frame count, the rate and the size.
pub proof fn the_clips_of_a_call_share_everything_but_their_format(args: SequenceArgs)
    ensures
        ({
            let color = args.declared(Clip::Color);
            let alpha = args.declared(Clip::Alpha);
            &&& color.num_frames == alpha.num_frames
            &&& color.fps_num == alpha.fps_num
            &&& color.fps_den == alpha.fps_den
            &&& color.width == alpha.width
            &&& color.height == alpha.height
        }),
{
}

/// The image a frame request is answered from.
pub fn requested_image(images: &Vec<ImageInfo>, n: i32) -> (image: Result<&ImageInfo, ImgSeqError>)
    ensures
        if n < 0 {
            error::fails_with(image, clip::invalid_text(n))
        } else if n >= images@.len() {
            error::fails_with(image, pool::range_text(n, images@.len() as int))
        } else {
            image == Ok::<&ImageInfo, ImgSeqError>(&images@[n as int])
        },
{
    if n < 0 {
        return Err(invalid_frame(n));
    }
    if n as usize >= images.len() {
        return Err(out_of_range(n, images.len()));
    }
    Ok(&images[n as usize])
}

/// The size an image is handed out as: its own, or its own with width and height
/// swapped where it is transposed.
pub open spec fn shown_size(image: ImageInfo) -> (int, int) {
    if image.transform.transpose {
        (image.height as int, image.width as int)
    } else {
        (image.width as int, image.height as int)
    }
}

/// A sequence is accepted without `mismatch` exactly when every image has the
/// width, the height and the pixel format of the first, and with it always; a
/// sequence in which one of the three differs is declared variable, and no other
/// is.
pub proof fn a_sequence_is_one_clip_when_every_image_agrees(
    images: Vec<ImageInfo>,
    options: Options,
    args: SequenceArgs,
    index: int,
)
    requires
        0 <= index < images@.len(),
    ensures
        ({
            let image = images@[index];
            let first = images@[0];
            let differs = {
                ||| shown_size(image).0 != shown_size(first).0
                ||| shown_size(image).1 != shown_size(first).1
                ||| image.format != first.format
            };
            &&& sequence_problem(images@, true) is None
            &&& differs ==> sequence_problem(images@, false) is Some
            &&& differs && !options.mismatch ==> clip_problem(images@, options) is Some
            &&& differs && describes(args, images, options) ==> args.variable
            &&& differs && options.mismatch && images@.len() <= i32::MAX ==> clip_problem(
                images@,
                options,
            ) is None
        }),
{
    if odd_one(images@, 1) is None && index > 0 {
        lemma_odd_one(images@, 1, index);
    }
}

proof fn lemma_no_odd_one(images: Seq<ImageInfo>, at: int)
    requires
        1 <= at,
        forall|index: int|
            0 <= index < images.len() ==> {
                &&& shown_size(#[trigger] images[index]) == shown_size(images[0])
                &&& images[index].format == images[0].format
            },
    ensures
        odd_one(images, at) is None,
    decreases images.len() - at,
{
    if at < images.len() {
        assert(shown_size(images[at]) == shown_size(images[0]));
        lemma_no_odd_one(images, at + 1);
    }
}

/// A sequence of images that agree is accepted whatever `mismatch` says, and its
/// clip is constant: of the size and the format of every one of its images, with
/// one frame for each.
pub proof fn images_that_agree_are_one_constant_clip(
    images: Vec<ImageInfo>,
    options: Options,
    args: SequenceArgs,
    index: int,
)
    requires
        0 <= index < images@.len() <= i32::MAX,
        forall|other: int|
            0 <= other < images@.len() ==> {
                &&& shown_size(#[trigger] images@[other]) == shown_size(images@[0])
                &&& images@[other].format == images@[0].format
            },
    ensures
        sequence_problem(images@, options.mismatch) is None,
        shown_size(images@[0]).0 <= i32::MAX && shown_size(images@[0]).1 <= i32::MAX
            ==> clip_problem(images@, options) is None,
        describes(args, images, options) ==> {
            &&& !args.variable
            &&& args.width == shown_size(images@[index]).0
            &&& args.height == shown_size(images@[index]).1
            &&& args.format == images@[index].format
            &&& args.num_frames == images@.len()
            &&& args.images@[index] == images@[index]
            &&& args.options == options
        },
{
    lemma_no_odd_one(images@, 1);
    assert(shown_size(images@[index]) == shown_size(images@[0]));
}

/// What a clip declares, field by field: a constant clip the size and the format
/// of its frames, the alpha clip a single gray plane of the same depth, and a
/// variable one neither; both the rate and the number of frames of the call.
pub proof fn a_clip_declares_the_frames_it_hands_out(args: SequenceArgs, clip: Clip)
    ensures
        ({
            let declared = args.declared(clip);
            &&& declared.fps_num == args.options.fps_num
            &&& declared.fps_den == args.options.fps_den
            &&& declared.num_frames == args.num_frames
            &&& args.variable ==> {
                &&& declared.width == 0
                &&& declared.height == 0
                &&& declared.format.color_family == ColorFamily::Undefined
                &&& declared.format.bits_per_sample == 0
                &&& declared.format.num_planes == 0
            }
            &&& !args.variable ==> {
                &&& declared.width == args.width
                &&& declared.height == args.height
                &&& declared.format.bits_per_sample == args.format.bits()
                &&& declared.format.bytes_per_sample == args.format.word()
                &&& (declared.format.sample_type == SampleType::Float) == args.format.float()
                &&& clip == Clip::Color ==> {
                    &&& declared.format.color_family == args.format.family()
                    &&& declared.format.num_planes == args.format.planes()
                    &&& declared.format.sub_sampling_w == args.format.subsampling().0
                    &&& declared.format.sub_sampling_h == args.format.subsampling().1
                }
                &&& clip == Clip::Alpha ==> {
                    &&& declared.format.color_family == ColorFamily::Gray
                    &&& declared.format.num_planes == 1
                    &&& declared.format.sub_sampling_w == 0
                    &&& declared.format.sub_sampling_h == 0
                }
            }
        }),
{
}

/// The integer arguments of a call, one by one: a rate of 24 frames a second, no
/// mismatch, rotation and no debug output where nothing is said, any number but
/// zero for true, at most sixteen workers, and a budget in mebibytes.
pub proof fn an_argument_that_is_left_out_has_its_default(arguments: Arguments, automatic: usize)
    requires
        first_problem(arguments) is None,
    ensures
        ({
            let options = resolved(arguments, automatic);
            let fps_num: int = match arguments.fpsnum {
                Argument::Given(value) => value as int,
                _ => 24,
            };
            let fps_den: int = match arguments.fpsden {
                Argument::Given(value) => value as int,
                _ => 1,
            };
            &&& 0 < fps_num
            &&& 0 < fps_den
            &&& options.fps_num * fps_den == options.fps_den * fps_num
            &&& 0 < options.fps_num
            &&& 0 < options.fps_den
            &&& options.mismatch == (arguments.mismatch matches Argument::Given(value) && value
                != 0)
            &&& !options.apply_rotation == (arguments.apply_rotation matches Argument::Given(value)
                && value == 0)
            &&& options.debug == (arguments.debug matches Argument::Given(value) && value != 0)
            &&& match arguments.prefetch {
                Argument::Given(value) => 0 <= value && options.prefetch_workers == (if value
                    > 16 {
                    16int
                } else {
                    value as int
                }),
                _ => options.prefetch_workers == automatic,
            }
            &&& match arguments.prefetch_memory {
                Argument::Given(value) => 1 <= value && options.prefetch_memory == Some(
                    (if value * 1048576 > usize::MAX {
                        usize::MAX
                    } else {
                        (value * 1048576) as usize
                    }),
                ),
                _ => options.prefetch_memory is None,
            }
        }),
{
    let fps_num = or_default(optional(arguments.fpsnum, "fpsnum"@)->Ok_0, 24);
    let fps_den = or_default(optional(arguments.fpsden, "fpsden"@)->Ok_0, 1);
    a_reduced_rate_is_the_same_rate_in_lowest_terms(fps_num, fps_den);
}

/// A call is refused for its integer arguments exactly when one of them cannot be
/// read, a rate is not positive, the number of workers is negative, or the budget
/// holds no mebibyte.
pub proof fn only_a_senseless_argument_is_refused(arguments: Arguments)
    ensures
        (first_problem(arguments) is None) == {
            &&& arguments.fpsnum !is Invalid
            &&& arguments.fpsden !is Invalid
            &&& arguments.mismatch !is Invalid
            &&& arguments.apply_rotation !is Invalid
            &&& arguments.debug !is Invalid
            &&& arguments.prefetch !is Invalid
            &&& arguments.prefetch_memory !is Invalid
            &&& arguments.fpsnum matches Argument::Given(value) ==> value > 0
            &&& arguments.fpsden matches Argument::Given(value) ==> value > 0
            &&& arguments.prefetch matches Argument::Given(value) ==> value >= 0
            &&& arguments.prefetch_memory matches Argument::Given(value) ==> value >= 1
        },
{
}

} // verus!
