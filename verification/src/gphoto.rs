//! Shooting with a camera through the `gphoto2` command.
use vstd::prelude::*;
use vstd::string::*;

verus! {

/// How to shoot: whether the camera keeps a raw file besides the JPEG one,
/// and the shutter speed and ISO settings, as `gphoto2` numbers them.
pub struct Options {
    pub keep_raw: bool,
    pub shutter_speed: String,
    pub iso: String,
}

/// Why shooting failed.
#[derive(Clone, Copy, Debug, PartialEq, Eq, Structural)]
pub enum ShootError {
    /// `gphoto2` did not exit successfully.
    GphotoCommandFailed,
    /// The file `gphoto2` downloaded is empty.
    EmptyFile,
}

/// The arguments of the `gphoto2` command that shoots with `options` and
/// downloads the JPEG file to `filename`: the capture target is the memory
/// card and the image format raw plus large fine JPEG where the raw file is
/// kept, the internal memory and large fine JPEG otherwise.
pub open spec fn shoot_args_spec(keep_raw: bool, shutter_speed: Seq<char>, iso: Seq<char>, filename: Seq<char>) -> Seq<Seq<char>> {
    let target = if keep_raw {
        seq!["--set-config"@, "capturetarget=1"@, "--keep-raw"@, "--set-config"@, "imageformat=8"@]
    } else {
        seq!["--set-config"@, "capturetarget=0"@, "--set-config"@, "imageformat=0"@]
    };
    seq!["--filename"@, filename, "--force-overwrite"@] + target + seq![
        "--set-config"@,
        "shutterspeed="@ + shutter_speed,
        "--set-config"@,
        "iso="@ + iso,
        "--capture-image-and-download"@,
    ]
}

/// The text of each string.
pub open spec fn strings_view(v: Seq<String>) -> Seq<Seq<char>> {
    v.map_values(|s: String| s@)
}

/// The arguments of the `gphoto2` command that shoots with `options` and
/// downloads the JPEG file to `filename`.
pub fn shoot_args(options: &Options, filename: &str) -> (res: Vec<String>)
    ensures
        strings_view(res@) == shoot_args_spec(options.keep_raw, options.shutter_speed@, options.iso@, filename@),
{
    let mut args: Vec<String> = Vec::new();
    args.push("--filename".to_owned());
    args.push(filename.to_owned());
    args.push("--force-overwrite".to_owned());
    if options.keep_raw {
        args.push("--set-config".to_owned());
        args.push("capturetarget=1".to_owned());
        args.push("--keep-raw".to_owned());
        args.push("--set-config".to_owned());
        args.push("imageformat=8".to_owned());
    } else {
        args.push("--set-config".to_owned());
        args.push("capturetarget=0".to_owned());
        args.push("--set-config".to_owned());
        args.push("imageformat=0".to_owned());
    }
    args.push("--set-config".to_owned());
    let mut speed = "shutterspeed=".to_owned();
    speed.append(options.shutter_speed.as_str());
    args.push(speed);
    args.push("--set-config".to_owned());
    let mut iso = "iso=".to_owned();
    iso.append(options.iso.as_str());
    args.push(iso);
    args.push("--capture-image-and-download".to_owned());
    assert(strings_view(args@) =~= shoot_args_spec(
        options.keep_raw,
        options.shutter_speed@,
        options.iso@,
        filename@,
    ));
    args
}

/// Whether a shot succeeded, from the exit status of `gphoto2` and the size
/// of the file it downloaded.
pub fn check_shot(command_succeeded: bool, file_len: u64) -> (res: Result<(), ShootError>)
    ensures
        !command_succeeded ==> res == Err::<(), ShootError>(ShootError::GphotoCommandFailed),
        command_succeeded && file_len == 0 ==> res == Err::<(), ShootError>(ShootError::EmptyFile),
        command_succeeded && file_len > 0 ==> res == Ok::<(), ShootError>(()),
{
    if !command_succeeded {
        Err(ShootError::GphotoCommandFailed)
    } else if file_len == 0 {
        Err(ShootError::EmptyFile)
    } else {
        Ok(())
    }
}

} // verus!
