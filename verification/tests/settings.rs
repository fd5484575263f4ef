use camstream::camera::{CameraArgs, CameraProvider, Mode, Resolution, Rotation};
use camstream::text::{eq_ignore_ascii_case, str_eq, u64_to_decimal, usize_to_decimal};

#[test]
fn capture_command_per_stack_and_mode() {
    let v = CameraArgs::new(CameraProvider::Legacy, Mode::Video);
    assert_eq!(v.cmd, "raspivid");
    assert_eq!(v.args, vec!["-o", "-", "-n", "-t", "0"]);

    let i = CameraArgs::new(CameraProvider::Legacy, Mode::Image);
    assert_eq!(i.cmd, "raspistill");
    assert_eq!(i.args, vec!["-o", "-", "-n", "--encoding", "bmp"]);

    let lv = CameraArgs::new(CameraProvider::LibCamera, Mode::Video);
    assert_eq!(lv.cmd, "libcamera-vid");
    let li = CameraArgs::new(CameraProvider::LibCamera, Mode::Image);
    assert_eq!(li.cmd, "libcamera-still");
}

#[test]
fn resolution_and_shutter_append_their_flags() {
    let mut args = CameraArgs::new(CameraProvider::Legacy, Mode::Video);
    args.with_resolution(Resolution { width: 1280, height: 720 });
    args.with_shutter_speed(16667);
    assert_eq!(
        args.args,
        vec!["-o", "-", "-n", "-t", "0", "--width", "1280", "--height", "720", "--shutter",
            "16667"]
    );
}

#[test]
fn rotation_flags_per_mounting() {
    let mut a = CameraArgs::new(CameraProvider::Legacy, Mode::Video);
    a.with_rotation(Rotation::Normal);
    assert_eq!(a.args.len(), 5, "normal mounting needs no flag");
    a.with_rotation(Rotation::Clockwise90);
    assert_eq!(&a.args[5..], ["--rotation", "90"]);
    a.with_rotation(Rotation::UpsideDown);
    assert_eq!(&a.args[7..], ["--hflip", "--vflip"]);
    a.with_rotation(Rotation::Anticlockwise90);
    assert_eq!(&a.args[9..], ["--rotation", "270"]);
}

#[test]
fn provider_parsing_is_case_insensitive() {
    assert_eq!(CameraProvider::parse("libcamera"), Ok(CameraProvider::LibCamera));
    assert_eq!(CameraProvider::parse("LibCamera"), Ok(CameraProvider::LibCamera));
    assert_eq!(CameraProvider::parse("LEGACY"), Ok(CameraProvider::Legacy));
    assert_eq!(CameraProvider::parse("raspi"), Ok(CameraProvider::Legacy));
    assert_eq!(
        CameraProvider::parse("foo"),
        Err("unrecognized camera provider: foo".to_string())
    );
    assert_eq!(CameraProvider::default(), CameraProvider::Legacy);
}

#[test]
fn resolution_parsing() {
    assert_eq!(Resolution::parse("1280x720"), Some(Resolution { width: 1280, height: 720 }));
    assert_eq!(Resolution::parse("007x08"), Some(Resolution { width: 7, height: 8 }));
    assert_eq!(Resolution::parse("0x0"), Some(Resolution { width: 0, height: 0 }));
    assert_eq!(Resolution::parse("x720"), None, "empty width");
    assert_eq!(Resolution::parse("1280x"), None, "empty height");
    assert_eq!(Resolution::parse("1280y720"), None, "no separator");
    assert_eq!(Resolution::parse("12a0x720"), None, "not a digit");
    assert_eq!(Resolution::parse("99999999999999999999x1"), None, "width overflows");
    assert_eq!("640x480".parse::<Resolution>(), Ok(Resolution { width: 640, height: 480 }));
    assert_eq!(Resolution::default(), Resolution { width: 1280, height: 720 });
}

#[test]
fn rotation_parsing() {
    assert_eq!(Rotation::parse("0"), Ok(Rotation::Normal));
    assert_eq!(Rotation::parse("90"), Ok(Rotation::Clockwise90));
    assert_eq!(Rotation::parse("180"), Ok(Rotation::UpsideDown));
    assert_eq!(Rotation::parse("270"), Ok(Rotation::Anticlockwise90));
    assert_eq!(Rotation::parse("45"), Err("unknown rotation 45".to_string()));
    assert_eq!("180".parse::<Rotation>(), Ok(Rotation::UpsideDown));
    assert_eq!(Rotation::default(), Rotation::Normal);
}

#[test]
fn decimal_formatting() {
    assert_eq!(u64_to_decimal(0), "0");
    assert_eq!(u64_to_decimal(7), "7");
    assert_eq!(u64_to_decimal(1264), "1264");
    assert_eq!(u64_to_decimal(u64::MAX), "18446744073709551615");
    assert_eq!(usize_to_decimal(8080), "8080");
}

#[test]
fn text_comparisons() {
    assert!(str_eq("abc", "abc"));
    assert!(!str_eq("abc", "abd"));
    assert!(!str_eq("abc", "ab"));
    assert!(eq_ignore_ascii_case("AbC", "aBc"));
    assert!(!eq_ignore_ascii_case("abc", "abd"));
    assert!(eq_ignore_ascii_case("", ""));
}

#[test]
fn resolution_parsing_at_the_integer_boundary() {
    assert_eq!(
        Resolution::parse("18446744073709551615x1"),
        Some(Resolution { width: 18446744073709551615, height: 1 })
    );
    assert_eq!(Resolution::parse("18446744073709551616x1"), None);
    assert_eq!(Resolution::parse("1x18446744073709551616"), None);
}

#[test]
fn splitting_happens_at_the_first_x() {
    assert_eq!(Resolution::parse("1x2x3"), None, "the remainder after the first 'x' must be digits");
    assert_eq!(Resolution::parse("10x20"), Some(Resolution { width: 10, height: 20 }));
}
