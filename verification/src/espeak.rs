//! Where Kokoro's phonemizer finds eSpeak NG: a binary and data directory
//! that the user configured, or an `espeak-ng` on the PATH. The library
//! decides from facts that its caller looked up on the machine.

use vstd::prelude::*;
use crate::text::concat;

verus! {

/// How eSpeak NG is run: the binary and data directory to use, where set.
#[derive(Debug)]
pub struct EspeakConfig {
    pub bin_path: Option<String>,
    pub data_path: Option<String>,
}

/// Why Kokoro cannot run eSpeak NG.
#[derive(Debug)]
pub enum KokoroError {
    Config(String),
    EspeakUnavailable(String),
}

pub enum KokoroErrorView {
    Config(Seq<char>),
    EspeakUnavailable(Seq<char>),
}

impl View for KokoroError {
    type V = KokoroErrorView;

    open spec fn view(&self) -> KokoroErrorView {
        match self {
            KokoroError::Config(m) => KokoroErrorView::Config(m@),
            KokoroError::EspeakUnavailable(m) => KokoroErrorView::EspeakUnavailable(m@),
        }
    }
}

pub open spec fn opt_path(p: Option<String>) -> Option<Seq<char>> {
    match p {
        Some(s) => Some(s@),
        None => None,
    }
}

/// The error for a data path that is given but is not a directory.
pub open spec fn data_path_error(d: Seq<char>) -> KokoroErrorView {
    KokoroErrorView::Config("Configured eSpeak NG data path does not exist: "@ + d)
}

/// The configuration that the user's paths give: none without a binary
/// (the data path is not looked at then); with a binary, an error when it
/// is not a file, or when a data path is given that is not a directory,
/// else the binary with its data path.
pub open spec fn explicit_config_outcome(
    bin: Option<Seq<char>>,
    data: Option<Seq<char>>,
    bin_is_file: bool,
    data_is_dir: bool,
) -> Result<Option<(Option<Seq<char>>, Option<Seq<char>>)>, KokoroErrorView> {
    match bin {
        None => Ok(None),
        Some(b) => if !bin_is_file {
            Err(KokoroErrorView::Config("Configured eSpeak NG binary does not exist: "@ + b))
        } else {
            match data {
                Some(d) => if data_is_dir {
                    Ok(Some((Some(b), Some(d))))
                } else {
                    Err(data_path_error(d))
                },
                None => Ok(Some((Some(b), None))),
            }
        },
    }
}

/// The configuration of the user's paths (see `explicit_config_outcome`);
/// `bin_is_file` tells whether the requested binary is a file, `data_is_dir`
/// whether the requested data path is a directory.
pub fn explicit_espeak_config(
    requested_bin_path: Option<String>,
    requested_data_path: Option<String>,
    bin_is_file: bool,
    data_is_dir: bool,
) -> (r: Result<Option<EspeakConfig>, KokoroError>)
    ensures
        match explicit_config_outcome(
            opt_path(requested_bin_path),
            opt_path(requested_data_path),
            bin_is_file,
            data_is_dir,
        ) {
            Ok(None) => r matches Ok(None),
            Ok(Some((b, d))) => r matches Ok(Some(c)) && opt_path(c.bin_path) == b && opt_path(
                c.data_path,
            ) == d,
            Err(e) => r matches Err(x) && x@ == e,
        },
{
    let bin_path = match requested_bin_path {
        Some(b) => b,
        None => return Ok(None),
    };
    if !bin_is_file {
        return Err(
            KokoroError::Config(
                concat("Configured eSpeak NG binary does not exist: ", bin_path.as_str()),
            ),
        );
    }
    let data_path = match requested_data_path {
        Some(path) => if data_is_dir {
            Some(path)
        } else {
            return Err(
                KokoroError::Config(
                    concat("Configured eSpeak NG data path does not exist: ", path.as_str()),
                ),
            );
        },
        None => None,
    };
    Ok(Some(EspeakConfig { bin_path: Some(bin_path), data_path }))
}

/// The install advice for an operating system, as `std::env::consts::OS`
/// names it.
pub open spec fn install_advice(os: Seq<char>) -> Seq<char> {
    if os == "windows"@ {
        "Install eSpeak NG, then restart the app:\n\nwinget install eSpeak-NG.eSpeak-NG"@
    } else if os == "macos"@ {
        "Install eSpeak NG, then restart the app:\n\nbrew install espeak-ng"@
    } else if os == "linux"@ {
        "Install eSpeak NG with your distro package manager, then restart the app:\n\nUbuntu/Debian: sudo apt install espeak-ng\nFedora: sudo dnf install espeak-ng\nArch: sudo pacman -S espeak-ng"@
    } else {
        "Install eSpeak NG, make sure `espeak-ng` is on PATH, then restart the app."@
    }
}

/// The guide shown when eSpeak NG is missing.
pub open spec fn install_guide(os: Seq<char>) -> Seq<char> {
    "Kokoro requires eSpeak NG for phonemization, but `espeak-ng` was not found.\n\n"@
        + install_advice(os) + "\n\nGuide: https://github.com/espeak-ng/espeak-ng"@
}

/// The guide shown when eSpeak NG is missing (see `install_guide`).
pub fn espeak_install_guide(os: &str) -> (r: String)
    ensures
        r@ == install_guide(os@),
{
    let install: &str = if crate::text::str_eq(os, "windows") {
        "Install eSpeak NG, then restart the app:\n\nwinget install eSpeak-NG.eSpeak-NG"
    } else if crate::text::str_eq(os, "macos") {
        "Install eSpeak NG, then restart the app:\n\nbrew install espeak-ng"
    } else if crate::text::str_eq(os, "linux") {
        "Install eSpeak NG with your distro package manager, then restart the app:\n\nUbuntu/Debian: sudo apt install espeak-ng\nFedora: sudo dnf install espeak-ng\nArch: sudo pacman -S espeak-ng"
    } else {
        "Install eSpeak NG, make sure `espeak-ng` is on PATH, then restart the app."
    };
    let a = concat(
        "Kokoro requires eSpeak NG for phonemization, but `espeak-ng` was not found.\n\n",
        install,
    );
    concat(a.as_str(), "\n\nGuide: https://github.com/espeak-ng/espeak-ng")
}

/// The configuration on a desktop without a configured binary: `espeak-ng`
/// from the PATH, with the configured data directory, when it runs; else the
/// install guide as the error.
pub fn resolve_desktop_espeak(data_path: Option<String>, espeak_on_path: bool, os: &str) -> (r: Result<
    EspeakConfig,
    KokoroError,
>)
    ensures
        espeak_on_path ==> (r matches Ok(c) && c.bin_path is None && opt_path(c.data_path)
            == opt_path(data_path)),
        !espeak_on_path ==> (r matches Err(e) && e@ == KokoroErrorView::EspeakUnavailable(
            install_guide(os@),
        )),
{
    if espeak_on_path {
        return Ok(EspeakConfig { bin_path: None, data_path });
    }
    Err(KokoroError::EspeakUnavailable(espeak_install_guide(os)))
}

/// Where eSpeak NG is run from: the configured paths (see
/// `explicit_config_outcome`), else `espeak-ng` on the PATH with the
/// configured data path as it was given, else the install guide as the
/// error.
pub open spec fn espeak_config_outcome(
    bin: Option<Seq<char>>,
    data: Option<Seq<char>>,
    bin_is_file: bool,
    data_is_dir: bool,
    espeak_on_path: bool,
    os: Seq<char>,
) -> Result<(Option<Seq<char>>, Option<Seq<char>>), KokoroErrorView> {
    match explicit_config_outcome(bin, data, bin_is_file, data_is_dir) {
        Err(e) => Err(e),
        Ok(Some(c)) => Ok(c),
        Ok(None) => if espeak_on_path {
            Ok((None, data))
        } else {
            Err(KokoroErrorView::EspeakUnavailable(install_guide(os)))
        },
    }
}

/// Finds eSpeak NG for Kokoro (see `espeak_config_outcome`) from what the
/// caller looked up on the machine: whether the requested binary is a
/// file, whether the requested data path is a directory, whether
/// `espeak-ng` runs from the PATH, and the operating system's name.
pub fn resolve_espeak_config(
    requested_bin_path: Option<String>,
    requested_data_path: Option<String>,
    bin_is_file: bool,
    data_is_dir: bool,
    espeak_on_path: bool,
    os: &str,
) -> (r: Result<EspeakConfig, KokoroError>)
    ensures
        match espeak_config_outcome(
            opt_path(requested_bin_path),
            opt_path(requested_data_path),
            bin_is_file,
            data_is_dir,
            espeak_on_path,
            os@,
        ) {
            Ok((b, d)) => r matches Ok(c) && opt_path(c.bin_path) == b && opt_path(c.data_path)
                == d,
            Err(e) => r matches Err(x) && x@ == e,
        },
{
    let data_copy: Option<String> = match &requested_data_path {
        Some(d) => Some(d.clone()),
        None => None,
    };
    match explicit_espeak_config(requested_bin_path, requested_data_path, bin_is_file, data_is_dir) {
        Err(e) => Err(e),
        Ok(Some(c)) => Ok(c),
        Ok(None) => resolve_desktop_espeak(data_copy, espeak_on_path, os),
    }
}

/// A configured binary that is a file is used, whether or not `espeak-ng`
/// is on the PATH: alone when no data path is given, with the data path
/// when it is a directory, and a data path that is not one is an error. A
/// configured binary that is not a file is an error. Without a binary,
/// `espeak-ng` on the PATH is used with the data path as given, and the
/// install guide is the error when it is missing.
pub proof fn law_espeak_resolution(
    bin: Option<Seq<char>>,
    data: Option<Seq<char>>,
    bin_is_file: bool,
    data_is_dir: bool,
    on_path: bool,
    os: Seq<char>,
)
    ensures
        ({
            let r = espeak_config_outcome(bin, data, bin_is_file, data_is_dir, on_path, os);
            &&& (bin is Some && bin_is_file && data is None) ==> r == Ok::<
                (Option<Seq<char>>, Option<Seq<char>>),
                KokoroErrorView,
            >((bin, None))
            &&& (bin is Some && bin_is_file && data is Some && data_is_dir) ==> r == Ok::<
                (Option<Seq<char>>, Option<Seq<char>>),
                KokoroErrorView,
            >((bin, data))
            &&& (bin is Some && bin_is_file && data is Some && !data_is_dir) ==> r == Err::<
                (Option<Seq<char>>, Option<Seq<char>>),
                KokoroErrorView,
            >(
                KokoroErrorView::Config(
                    "Configured eSpeak NG data path does not exist: "@ + data->0,
                ),
            )
            &&& (bin is Some && !bin_is_file) ==> r == Err::<
                (Option<Seq<char>>, Option<Seq<char>>),
                KokoroErrorView,
            >(KokoroErrorView::Config("Configured eSpeak NG binary does not exist: "@ + bin->0))
            &&& (bin is None && on_path) ==> r == Ok::<
                (Option<Seq<char>>, Option<Seq<char>>),
                KokoroErrorView,
            >((None, data))
            &&& (bin is None && !on_path) ==> r == Err::<
                (Option<Seq<char>>, Option<Seq<char>>),
                KokoroErrorView,
            >(KokoroErrorView::EspeakUnavailable(install_guide(os)))
        }),
{
}

} // verus!
