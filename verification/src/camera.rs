//! Camera capture settings and the command line they translate to.
//!
//! [`CameraArgs`] builds the argument list for the externally spawned
//! capture process; which binary runs depends on the camera stack and on
//! whether a still image or a video stream is wanted.  Spawning the
//! process, and everything after it, is the caller's concern: this
//! module only assembles and pins down the exact strings.

use vstd::prelude::*;
use vstd::string::StrSliceExecFns;
use vstd::string::StringExecFns;

use crate::text::{all_digits, dec_digits, dec_value, eq_ignore_ascii_case, find_char,
    find_char_in, lower_codes, parse_decimal, str_eq, usize_to_decimal, u64_to_decimal};

verus! {

/// Which camera stack drives the hardware.
#[derive(Clone, Copy, PartialEq, Eq, Structural, Debug)]
pub enum CameraProvider {
    /// The legacy stack.
    Legacy,
    /// The libcamera stack.
    LibCamera,
}

/// A capture resolution in pixels.
#[derive(Clone, Copy, PartialEq, Eq, Structural, Debug)]
pub struct Resolution {
    pub width: usize,
    pub height: usize,
}

/// How the camera is mounted.
#[derive(Clone, Copy, PartialEq, Eq, Structural, Debug)]
pub enum Rotation {
    Normal,
    Clockwise90,
    UpsideDown,
    Anticlockwise90,
}

/// What the spawned process captures.
#[derive(Clone, Copy, PartialEq, Eq, Structural, Debug)]
pub enum Mode {
    /// A single still image.
    Image,
    /// A continuous video stream.
    Video,
}

impl CameraProvider {
    /// Parse a provider name, ASCII case-insensitively: `"libcamera"`
    /// selects the libcamera stack, `"legacy"` and `"raspi"` the legacy
    /// one; anything else is rejected with a message naming the input.
    pub fn parse(s: &str) -> (r: Result<CameraProvider, String>)
        ensures
            (r == Ok::<CameraProvider, String>(CameraProvider::LibCamera)) == (lower_codes(s@)
                == lower_codes("libcamera"@)),
            (r == Ok::<CameraProvider, String>(CameraProvider::Legacy)) == (lower_codes(s@)
                == lower_codes("legacy"@) || lower_codes(s@) == lower_codes("raspi"@)),
            r is Err ==> (r matches Err(m) && m@ == "unrecognized camera provider: "@ + s@),
            r is Err <==> !(lower_codes(s@) == lower_codes("libcamera"@) || lower_codes(s@)
                == lower_codes("legacy"@) || lower_codes(s@) == lower_codes("raspi"@)),
    {
        proof {
            reveal_strlit("libcamera");
            reveal_strlit("legacy");
            reveal_strlit("raspi");
            assert(lower_codes("libcamera"@).len() == 9);
            assert(lower_codes("legacy"@).len() == 6);
            assert(lower_codes("raspi"@).len() == 5);
        }
        if eq_ignore_ascii_case(s, "libcamera") {
            Ok(CameraProvider::LibCamera)
        } else if eq_ignore_ascii_case(s, "legacy") || eq_ignore_ascii_case(s, "raspi") {
            Ok(CameraProvider::Legacy)
        } else {
            Err(String::from_str("unrecognized camera provider: ").concat(s))
        }
    }
}

impl Default for CameraProvider {
    /// The legacy stack is the default.
    fn default() -> (r: Self)
        ensures
            r == CameraProvider::Legacy,
    {
        CameraProvider::Legacy
    }
}

impl core::str::FromStr for CameraProvider {
    type Err = String;

    fn from_str(s: &str) -> Result<Self, Self::Err> {
        CameraProvider::parse(s)
    }
}

/// The resolution `s` denotes: digits, an `'x'`, digits, each value
/// fitting the machine word.  Splitting happens at the first `'x'`.
pub open spec fn resolution_of(s: Seq<char>) -> Option<Resolution> {
    match find_char(s, 'x') {
        Some(xi) => {
            let left = s.subrange(0, xi);
            let right = s.subrange(xi + 1, s.len() as int);
            if left.len() > 0 && right.len() > 0 && all_digits(left) && all_digits(right)
                && dec_value(left) <= usize::MAX && dec_value(right) <= usize::MAX {
                Some(
                    Resolution {
                        width: dec_value(left) as usize,
                        height: dec_value(right) as usize,
                    },
                )
            } else {
                None
            }
        },
        None => None,
    }
}

impl Resolution {
    /// Parse `"WxH"`.
    pub fn parse(s: &str) -> (r: Option<Resolution>)
        ensures
            r == resolution_of(s@),
    {
        let n = s.unicode_len();
        match find_char_in(s, 'x') {
            Some(xi) => {
                let left = parse_decimal(s, 0, xi);
                let right = parse_decimal(s, xi + 1, n);
                proof {
                    assert(s@.subrange(0, xi as int).len() > 0 <==> 0 < xi);
                }
                match (left, right) {
                    (Some(w), Some(h)) => {
                        if w <= usize::MAX as u64 && h <= usize::MAX as u64 {
                            Some(Resolution { width: w as usize, height: h as usize })
                        } else {
                            None
                        }
                    },
                    _ => None,
                }
            },
            None => None,
        }
    }
}

impl Default for Resolution {
    /// 1280 by 720.
    fn default() -> (r: Self)
        ensures
            r == (Resolution { width: 1280, height: 720 }),
    {
        Resolution { width: 1280, height: 720 }
    }
}

impl core::str::FromStr for Resolution {
    type Err = String;

    fn from_str(s: &str) -> Result<Self, Self::Err> {
        match Resolution::parse(s) {
            Some(r) => Ok(r),
            None => Err(
                <String as StringExecFns>::from_str("invalid resolution, expected WxH: ").concat(
                    s,
                ),
            ),
        }
    }
}

impl Rotation {
    /// Parse a rotation given in degrees: `"0"`, `"90"`, `"180"` or
    /// `"270"`; anything else is rejected with a message naming the
    /// input.
    pub fn parse(s: &str) -> (r: Result<Rotation, String>)
        ensures
            (r == Ok::<Rotation, String>(Rotation::Normal)) == (s@ == "0"@),
            (r == Ok::<Rotation, String>(Rotation::Clockwise90)) == (s@ == "90"@),
            (r == Ok::<Rotation, String>(Rotation::UpsideDown)) == (s@ == "180"@),
            (r == Ok::<Rotation, String>(Rotation::Anticlockwise90)) == (s@ == "270"@),
            r is Err ==> (r matches Err(m) && m@ == "unknown rotation "@ + s@),
            r is Err <==> !(s@ == "0"@ || s@ == "90"@ || s@ == "180"@ || s@ == "270"@),
    {
        proof {
            reveal_strlit("0");
            reveal_strlit("90");
            reveal_strlit("180");
            reveal_strlit("270");
            assert("0"@.len() == 1);
            assert("90"@.len() == 2);
            assert("180"@.len() == 3);
            assert("270"@.len() == 3);
            assert("180"@[0] != "270"@[0]);
        }
        if str_eq(s, "0") {
            Ok(Rotation::Normal)
        } else if str_eq(s, "90") {
            Ok(Rotation::Clockwise90)
        } else if str_eq(s, "180") {
            Ok(Rotation::UpsideDown)
        } else if str_eq(s, "270") {
            Ok(Rotation::Anticlockwise90)
        } else {
            Err(String::from_str("unknown rotation ").concat(s))
        }
    }
}

impl Default for Rotation {
    /// No rotation.
    fn default() -> (r: Self)
        ensures
            r == Rotation::Normal,
    {
        Rotation::Normal
    }
}

impl core::str::FromStr for Rotation {
    type Err = String;

    fn from_str(s: &str) -> Result<Self, Self::Err> {
        Rotation::parse(s)
    }
}

/// The views of an argument vector.
pub open spec fn args_view(args: Seq<String>) -> Seq<Seq<char>> {
    args.map_values(|s: String| s@)
}

/// The capture binary for a stack and mode.
pub open spec fn camera_cmd(provider: CameraProvider, mode: Mode) -> Seq<char> {
    match (provider, mode) {
        (CameraProvider::Legacy, Mode::Image) => "raspistill"@,
        (CameraProvider::LibCamera, Mode::Image) => "libcamera-still"@,
        (CameraProvider::Legacy, Mode::Video) => "raspivid"@,
        (CameraProvider::LibCamera, Mode::Video) => "libcamera-vid"@,
    }
}

/// The arguments every capture invocation starts with: emit to standard
/// output, no preview window, then the mode's own flags — `bmp` stills,
/// or an unbounded video run.
pub open spec fn base_args(mode: Mode) -> Seq<Seq<char>> {
    seq!["-o"@, "-"@, "-n"@] + (match mode {
        Mode::Image => seq!["--encoding"@, "bmp"@],
        Mode::Video => seq!["-t"@, "0"@],
    })
}

/// The command line of one capture-process invocation.
#[derive(Clone)]
pub struct CameraArgs {
    pub cmd: String,
    pub args: Vec<String>,
}

impl CameraArgs {
    /// The invocation for a camera stack and capture mode.
    pub fn new(provider: CameraProvider, mode: Mode) -> (r: CameraArgs)
        ensures
            r.cmd@ == camera_cmd(provider, mode),
            args_view(r.args@) == base_args(mode),
    {
        proof {
            reveal_strlit("raspistill");
            reveal_strlit("libcamera-still");
            reveal_strlit("raspivid");
            reveal_strlit("libcamera-vid");
        }
        let cmd = match (provider, mode) {
            (CameraProvider::Legacy, Mode::Image) => String::from_str("raspistill"),
            (CameraProvider::LibCamera, Mode::Image) => String::from_str("libcamera-still"),
            (CameraProvider::Legacy, Mode::Video) => String::from_str("raspivid"),
            (CameraProvider::LibCamera, Mode::Video) => String::from_str("libcamera-vid"),
        };
        let mut args: Vec<String> = Vec::new();
        args.push(String::from_str("-o"));
        args.push(String::from_str("-"));
        args.push(String::from_str("-n"));
        match mode {
            Mode::Image => {
                args.push(String::from_str("--encoding"));
                args.push(String::from_str("bmp"));
            },
            Mode::Video => {
                args.push(String::from_str("-t"));
                args.push(String::from_str("0"));
            },
        }
        proof {
            assert(args_view(args@) =~= base_args(mode));
        }
        CameraArgs { cmd, args }
    }

    /// Ask the capture process for an exact resolution: appends
    /// `--width W --height H`.
    pub fn with_resolution(&mut self, res: Resolution)
        ensures
            final(self).cmd == old(self).cmd,
            args_view(final(self).args@) == args_view(old(self).args@) + seq![
                "--width"@,
                dec_digits(res.width as nat),
                "--height"@,
                dec_digits(res.height as nat),
            ],
    {
        proof {
            reveal_strlit("--width");
            reveal_strlit("--height");
        }
        self.args.push(String::from_str("--width"));
        self.args.push(usize_to_decimal(res.width));
        self.args.push(String::from_str("--height"));
        self.args.push(usize_to_decimal(res.height));
        proof {
            assert(args_view(self.args@) =~= args_view(old(self).args@) + seq![
                "--width"@,
                dec_digits(res.width as nat),
                "--height"@,
                dec_digits(res.height as nat),
            ]);
        }
    }

    /// Tell the capture process how the camera is mounted: a quarter
    /// turn uses `--rotation`, upside-down mounting flips both axes, and
    /// the normal mounting needs nothing.
    pub fn with_rotation(&mut self, rot: Rotation)
        ensures
            final(self).cmd == old(self).cmd,
            args_view(final(self).args@) == args_view(old(self).args@) + (match rot {
                Rotation::Normal => Seq::<Seq<char>>::empty(),
                Rotation::Clockwise90 => seq!["--rotation"@, "90"@],
                Rotation::UpsideDown => seq!["--hflip"@, "--vflip"@],
                Rotation::Anticlockwise90 => seq!["--rotation"@, "270"@],
            }),
    {
        proof {
            reveal_strlit("--rotation");
            reveal_strlit("--hflip");
            reveal_strlit("--vflip");
            reveal_strlit("90");
            reveal_strlit("270");
        }
        match rot {
            Rotation::Normal => {},
            Rotation::Clockwise90 => {
                self.args.push(String::from_str("--rotation"));
                self.args.push(String::from_str("90"));
            },
            Rotation::UpsideDown => {
                self.args.push(String::from_str("--hflip"));
                self.args.push(String::from_str("--vflip"));
            },
            Rotation::Anticlockwise90 => {
                self.args.push(String::from_str("--rotation"));
                self.args.push(String::from_str("270"));
            },
        }
        proof {
            assert(args_view(self.args@) =~= args_view(old(self).args@) + (match rot {
                Rotation::Normal => Seq::<Seq<char>>::empty(),
                Rotation::Clockwise90 => seq!["--rotation"@, "90"@],
                Rotation::UpsideDown => seq!["--hflip"@, "--vflip"@],
                Rotation::Anticlockwise90 => seq!["--rotation"@, "270"@],
            }));
        }
    }

    /// Fix the exposure time: appends `--shutter` with the time in
    /// microseconds.
    pub fn with_shutter_speed(&mut self, micros: u64)
        ensures
            final(self).cmd == old(self).cmd,
            args_view(final(self).args@) == args_view(old(self).args@) + seq![
                "--shutter"@,
                dec_digits(micros as nat),
            ],
    {
        proof {
            reveal_strlit("--shutter");
        }
        self.args.push(String::from_str("--shutter"));
        self.args.push(u64_to_decimal(micros));
        proof {
            assert(args_view(self.args@) =~= args_view(old(self).args@) + seq![
                "--shutter"@,
                dec_digits(micros as nat),
            ]);
        }
    }
}

} // verus!
