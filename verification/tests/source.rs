use imgseqs::clip::Clip;
use imgseqs::decoder::ImageInfo;
use imgseqs::frame::{ColorFamily, VideoFormat};
use imgseqs::image_types::{ColorType, Orientation};
use imgseqs::pixel::{PixelFormat, Transform};
use imgseqs::prefetch::{automatic_workers, AUTO_MAX_WORKERS, MAX_WORKERS};
use imgseqs::source::{
    files_count, gcd, has_format_mismatch, map_error, read_optional_int, reduce_fps,
    requested_image, resolve, resolve_prefetch_memory, resolve_prefetch_workers, validate_images,
    Argument, Arguments, Options, SequenceArgs,
};

fn image(path: &str, width: u32, height: u32, orientation: Orientation) -> ImageInfo {
    ImageInfo {
        path: path.to_string(),
        width,
        height,
        color_type: ColorType::Rgb8,
        original_color_type: "Rgb8".to_string(),
        has_icc_profile: false,
        icc_profile: None,
        cicp: None,
        chroma_location: None,
        orientation,
        transform: Transform::from_orientation(orientation),
        format: PixelFormat::Rgb8,
    }
}

fn upright(path: &str, width: u32, height: u32) -> ImageInfo {
    image(path, width, height, Orientation::NoTransforms)
}

fn arguments() -> Arguments {
    Arguments {
        fpsnum: Argument::Missing,
        fpsden: Argument::Missing,
        mismatch: Argument::Missing,
        apply_rotation: Argument::Missing,
        debug: Argument::Missing,
        prefetch: Argument::Missing,
        prefetch_memory: Argument::Missing,
    }
}

fn options(mismatch: bool) -> Options {
    Options {
        fps_num: 24,
        fps_den: 1,
        mismatch,
        apply_rotation: true,
        debug: false,
        prefetch_workers: 0,
        prefetch_memory: None,
    }
}

#[test]
fn maps_clip_formats() {
    assert_eq!(Clip::Color.pixel_format(PixelFormat::Rgb8), PixelFormat::Rgb8);
    assert_eq!(Clip::Alpha.pixel_format(PixelFormat::Rgb8), PixelFormat::Gray8);
    assert_eq!(Clip::Alpha.pixel_format(PixelFormat::Rgb32F), PixelFormat::Gray32F);
    assert_eq!(Clip::Color.alpha_marker(), None);
    assert_eq!(Clip::Alpha.alpha_marker(), Some(true));
    assert_eq!(Clip::Alpha.name(), "alpha");
}

#[test]
fn reduces_frame_rate() {
    assert_eq!(reduce_fps(60000, 1001).unwrap(), (60000, 1001));
    assert_eq!(reduce_fps(120, 4).unwrap(), (30, 1));
    assert_eq!(gcd(24, 18), 6);
}

#[test]
fn resolves_prefetch_workers() {
    let automatic = automatic_workers(16);
    assert_eq!(resolve_prefetch_workers(Some(0), automatic).unwrap(), 0);
    assert_eq!(resolve_prefetch_workers(Some(3), automatic).unwrap(), 3);
    assert_eq!(resolve_prefetch_workers(Some(10_000), automatic).unwrap(), MAX_WORKERS);
    assert!(resolve_prefetch_workers(Some(-1), automatic).is_err());
    assert!(resolve_prefetch_workers(None, automatic).unwrap() <= AUTO_MAX_WORKERS);
}

#[test]
fn resolves_prefetch_memory() {
    assert_eq!(resolve_prefetch_memory(None).unwrap(), None);
    assert_eq!(resolve_prefetch_memory(Some(64)).unwrap(), Some(64 * 1024 * 1024));
    assert!(resolve_prefetch_memory(Some(0)).is_err());
    assert!(resolve_prefetch_memory(Some(-1)).is_err());
}

#[test]
fn a_rate_that_is_not_positive_is_refused() {
    assert_eq!(
        reduce_fps(-24, 1).expect_err("a negative rate").message(),
        "fpsnum and fpsden must be positive, got -24/1"
    );
    assert!(reduce_fps(24, 0).is_err());
    assert_eq!(gcd(-24, 18), 6);
    assert_eq!(gcd(0, 7), 7);
}

#[test]
fn a_reduced_rate_keeps_the_ratio() {
    for (num, den) in [(30000i64, 1001i64), (48, 2), (1000, 33), (7, 7)] {
        let (reduced_num, reduced_den) = reduce_fps(num, den).unwrap();
        assert_eq!(reduced_num * den, reduced_den * num);
        assert_eq!(gcd(reduced_num, reduced_den), 1);
    }
}

#[test]
fn arguments_that_are_missing_have_defaults() {
    let resolved = resolve(&arguments(), 2).unwrap();
    assert_eq!(
        resolved,
        Options {
            fps_num: 24,
            fps_den: 1,
            mismatch: false,
            apply_rotation: true,
            debug: false,
            prefetch_workers: 2,
            prefetch_memory: None,
        }
    );
    let given = Arguments {
        fpsnum: Argument::Given(50),
        fpsden: Argument::Given(2),
        mismatch: Argument::Given(7),
        apply_rotation: Argument::Given(0),
        debug: Argument::Given(1),
        prefetch: Argument::Given(99),
        prefetch_memory: Argument::Given(1),
    };
    let resolved = resolve(&given, 2).unwrap();
    assert_eq!((resolved.fps_num, resolved.fps_den), (25, 1));
    assert!(resolved.mismatch && resolved.debug && !resolved.apply_rotation);
    assert_eq!(resolved.prefetch_workers, MAX_WORKERS);
    assert_eq!(resolved.prefetch_memory, Some(1024 * 1024));
}

#[test]
fn the_first_argument_that_cannot_be_read_is_reported() {
    let broken = Arguments {
        fpsnum: Argument::Given(0),
        debug: Argument::Invalid("wrong type".to_string()),
        prefetch: Argument::Given(-1),
        ..arguments()
    };
    assert_eq!(
        resolve(&broken, 2).expect_err("a broken argument").message(),
        "invalid debug[0] argument: wrong type"
    );
    let negative = Arguments {
        fpsnum: Argument::Given(0),
        prefetch: Argument::Given(-1),
        ..arguments()
    };
    assert_eq!(
        resolve(&negative, 2).expect_err("a negative count").message(),
        "prefetch must be zero or a positive number of worker threads, got -1"
    );
    let no_memory = Arguments { prefetch_memory: Argument::Given(0), ..arguments() };
    assert_eq!(
        resolve(&no_memory, 2).expect_err("no memory").message(),
        "prefetch_memory must be at least 1 MiB, got 0; use prefetch=0 to disable lookahead decoding"
    );
    let no_rate = Arguments { fpsnum: Argument::Given(0), ..arguments() };
    assert_eq!(
        resolve(&no_rate, 2).expect_err("no rate").message(),
        "fpsnum and fpsden must be positive, got 0/1"
    );
    assert_eq!(read_optional_int(&Argument::Given(3), "debug").unwrap(), Some(3));
    assert_eq!(read_optional_int(&Argument::Missing, "debug").unwrap(), None);
    assert_eq!(
        map_error("files", 2, "not utf8").message(),
        "invalid files[2] argument: not utf8"
    );
}

#[test]
fn a_call_without_files_is_refused() {
    assert_eq!(
        files_count(None).expect_err("no argument").message(),
        "Read requires at least one file in the files argument"
    );
    assert_eq!(
        files_count(Some(0)).expect_err("no files").message(),
        "Read requires at least one file"
    );
    assert_eq!(files_count(Some(3)).unwrap(), 3);
    assert!(validate_images(vec![], true).is_err());
}

#[test]
fn without_mismatch_every_image_has_to_agree() {
    let mixed = || vec![upright("a.png", 3, 2), upright("b.png", 3, 2), upright("c.png", 4, 2)];
    let error = match validate_images(mixed(), false) {
        Ok(_) => panic!("a mixed folder is refused"),
        Err(error) => error,
    };
    assert_eq!(
        error.message(),
        "frame 2 ('c.png') has 4x2 RGB24, expected frame 0 ('a.png') to be 3x2 RGB24"
    );
    assert_eq!(validate_images(mixed(), true).map(|images| images.len()).ok(), Some(3));
    assert!(has_format_mismatch(&mixed()));
    assert!(!has_format_mismatch(&vec![upright("a.png", 3, 2), upright("b.png", 3, 2)]));
}

#[test]
fn a_rotated_image_agrees_by_the_size_it_is_handed_out_as() {
    let images = vec![upright("a.png", 2, 3), image("b.jpg", 3, 2, Orientation::Rotate90)];
    assert!(validate_images(images, false).is_ok());
    let images = vec![upright("a.png", 3, 2), image("b.jpg", 3, 2, Orientation::Rotate90)];
    assert!(validate_images(images, false).is_err());
}

#[test]
fn a_constant_clip_declares_its_size_and_format() {
    let args = SequenceArgs::read(vec![image("a.jpg", 3, 2, Orientation::Rotate90)], options(false))
        .ok()
        .expect("one image is a clip");
    let info = args.video_info(Clip::Color);
    assert_eq!((info.width, info.height, info.num_frames), (2, 3, 1));
    assert_eq!((info.fps_num, info.fps_den), (24, 1));
    assert_eq!(info.format, VideoFormat::new(PixelFormat::Rgb8));
    let alpha = args.video_info(Clip::Alpha);
    assert_eq!(alpha.format, VideoFormat::new(PixelFormat::Gray8));
    assert_eq!((alpha.width, alpha.height, alpha.num_frames), (2, 3, 1));
}

#[test]
fn a_variable_clip_declares_no_size() {
    let args = SequenceArgs::read(
        vec![upright("a.png", 3, 2), upright("b.png", 4, 2)],
        options(true),
    )
    .ok()
    .expect("a variable clip");
    assert!(args.variable);
    let info = args.video_info(Clip::Color);
    assert_eq!((info.width, info.height, info.num_frames), (0, 0, 2));
    assert_eq!(info.format.color_family, ColorFamily::Undefined);
    let same = SequenceArgs::read(
        vec![upright("a.png", 3, 2), upright("b.png", 3, 2)],
        options(true),
    )
    .ok()
    .expect("a constant clip");
    assert!(!same.variable);
    assert_eq!(same.width, 3);
}

#[test]
fn a_clip_that_does_not_fit_is_refused() {
    let wide = SequenceArgs::read(vec![upright("a.png", u32::MAX, 2)], options(false))
        .err()
        .expect("a width past 31 bits");
    assert_eq!(wide.message(), "image width does not fit VapourSynth");
    let tall = SequenceArgs::read(vec![upright("a.png", 2, u32::MAX)], options(false))
        .err()
        .expect("a height past 31 bits");
    assert_eq!(tall.message(), "image height does not fit VapourSynth");
}

#[test]
fn a_frame_the_clip_does_not_have_is_refused() {
    let images = vec![upright("a.png", 3, 2)];
    assert_eq!(
        requested_image(&images, -1).err().expect("before the first").message(),
        "requested invalid frame -1"
    );
    assert_eq!(
        requested_image(&images, 1).err().expect("after the last").message(),
        "requested frame 1, but the clip has 1 frames"
    );
    assert_eq!(requested_image(&images, 0).ok().expect("the only one").path, "a.png");
}
