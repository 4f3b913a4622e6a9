//! Fetching a rock from a directory of vendored rocks.

use crate::package::{RemotePackageSource, RemotePackageSourceUrl};
use crate::slash_path::{is_slash_text, joined_in, path_join_in, to_slash_lossy, PathStyle};
use crate::text::{concat, copy};
use vstd::prelude::*;

verus! {

/// A package and its version.
#[derive(Debug)]
pub struct PackageSpec {
    pub name: String,
    pub version: String,
    /// How the package is written
    pub text: String,
}

/// Why a vendored rock could not be fetched.
#[derive(Debug)]
pub enum FetchVendoredError {
    /// What the search said
    Search(String),
    /// The package and the vendor directory
    RockspecNotFound(String, String),
    ReadRockspecContent { rockspec_path: String, err: String },
    ParseRockspec { rockspec_path: String, err: String },
    /// The package and the vendor directory
    PackageNotFound(String, String),
    /// The path of the rock, and why it could not be read
    ReadBinaryRock(String, String),
}

impl FetchVendoredError {
    /// What the error says.
    pub open spec fn message(&self) -> Seq<char> {
        match self {
            FetchVendoredError::Search(text) => text@,
            FetchVendoredError::RockspecNotFound(package, dir) => {
                "could not find a vendored RockSpec for package "@ + package@
                    + " in vendor directory "@ + dir@ + "."@
            },
            FetchVendoredError::ReadRockspecContent { rockspec_path, err } => {
                "could not read vendored RockSpec content at "@ + rockspec_path@ + ":\n"@ + err@
            },
            FetchVendoredError::ParseRockspec { rockspec_path, err } => {
                "could not parse vendored RockSpec "@ + rockspec_path@ + ":\n"@ + err@
            },
            FetchVendoredError::PackageNotFound(package, dir) => {
                "could not find a source or .rock archive for "@ + package@
                    + " in vendor directory "@ + dir@ + "."@
            },
            FetchVendoredError::ReadBinaryRock(path, err) => "unable to read binary rock: "@ + path@
                + ":\n"@ + err@,
        }
    }

    /// What the error says.
    pub fn to_message(&self) -> (r: String)
        ensures
            r@ == self.message(),
    {
        match self {
            FetchVendoredError::Search(text) => copy(text.as_str()),
            FetchVendoredError::RockspecNotFound(package, dir) => in_vendor_directory(
                "could not find a vendored RockSpec for package ",
                package.as_str(),
                dir.as_str(),
            ),
            FetchVendoredError::ReadRockspecContent { rockspec_path, err } => with_reason(
                "could not read vendored RockSpec content at ",
                rockspec_path.as_str(),
                err.as_str(),
            ),
            FetchVendoredError::ParseRockspec { rockspec_path, err } => with_reason(
                "could not parse vendored RockSpec ",
                rockspec_path.as_str(),
                err.as_str(),
            ),
            FetchVendoredError::PackageNotFound(package, dir) => in_vendor_directory(
                "could not find a source or .rock archive for ",
                package.as_str(),
                dir.as_str(),
            ),
            FetchVendoredError::ReadBinaryRock(path, err) => with_reason(
                "unable to read binary rock: ",
                path.as_str(),
                err.as_str(),
            ),
        }
    }
}

/// What is said of a package that is not in the vendor directory.
fn in_vendor_directory(what: &str, package: &str, dir: &str) -> (r: String)
    ensures
        r@ == what@ + package@ + " in vendor directory "@ + dir@ + "."@,
{
    concat(
        concat(concat(concat(what, package).as_str(), " in vendor directory ").as_str(), dir).as_str(),
        ".",
    )
}

/// What is said of a path, with the reason on a line of its own.
fn with_reason(what: &str, path: &str, reason: &str) -> (r: String)
    ensures
        r@ == what@ + path@ + ":\n"@ + reason@,
{
    concat(concat(concat(what, path).as_str(), ":\n").as_str(), reason)
}

/// A vendored package.
#[derive(Debug, PartialEq, Eq)]
pub enum VendoredPackage {
    /// The directory with the source
    Source(String),
    /// The packed rock
    BinaryRock(String),
}

/// How a vendored package is fetched.
#[derive(Debug)]
pub enum VendoredDownload {
    /// The rockspec alone, with the address of the source
    RockspecOnly { source: RemotePackageSource, source_url: Option<RemotePackageSourceUrl> },
    /// The rockspec and the packed rock, which is read from the path
    BinaryRock {
        source: RemotePackageSource,
        source_url: Option<RemotePackageSourceUrl>,
        rock_path: String,
    },
}

/// The path of the rockspec of the package.
pub open spec fn rockspec_path_of(
    style: PathStyle,
    vendor_dir: Seq<char>,
    package: PackageSpec,
) -> Seq<char> {
    joined_in(style, vendor_dir, package.name@ + "-"@ + package.version@ + ".rockspec"@)
}

/// The path of the source of the package.
pub open spec fn source_path_of(
    style: PathStyle,
    vendor_dir: Seq<char>,
    package: PackageSpec,
) -> Seq<char> {
    joined_in(style, vendor_dir, package.name@ + "@"@ + package.version@)
}

/// The path of the packed rock of the package.
pub open spec fn rock_path_of(
    style: PathStyle,
    vendor_dir: Seq<char>,
    package: PackageSpec,
) -> Seq<char> {
    joined_in(style, vendor_dir, package.name@ + "@"@ + package.version@ + ".rock"@)
}

/// The path of the rockspec of the package.
pub fn rockspec_path(vendor_dir: &str, package: &PackageSpec, style: PathStyle) -> (r: String)
    ensures
        r@ == rockspec_path_of(style, vendor_dir@, *package),
{
    let name = concat(
        concat(
            concat(package.name.as_str(), "-").as_str(),
            package.version.as_str(),
        ).as_str(),
        ".rockspec",
    );
    path_join_in(style, vendor_dir, name.as_str())
}

/// The path of the source of the package.
pub fn source_path(vendor_dir: &str, package: &PackageSpec, style: PathStyle) -> (r: String)
    ensures
        r@ == source_path_of(style, vendor_dir@, *package),
{
    let name = concat(
        concat(package.name.as_str(), "@").as_str(),
        package.version.as_str(),
    );
    path_join_in(style, vendor_dir, name.as_str())
}

/// The path of the packed rock of the package.
pub fn rock_path(vendor_dir: &str, package: &PackageSpec, style: PathStyle) -> (r: String)
    ensures
        r@ == rock_path_of(style, vendor_dir@, *package),
{
    let name = concat(
        concat(
            concat(package.name.as_str(), "@").as_str(),
            package.version.as_str(),
        ).as_str(),
        ".rock",
    );
    path_join_in(style, vendor_dir, name.as_str())
}

/// The path of the rockspec of the package, which is expected to be there. `is_file` says whether
/// there is a file at that path.
pub fn load_vendored_rockspec(
    vendor_dir: &str,
    package: &PackageSpec,
    is_file: bool,
    style: PathStyle,
) -> (r: Result<String, FetchVendoredError>)
    ensures
        match (is_file, r) {
            (true, Ok(path)) => path@ == rockspec_path_of(style, vendor_dir@, *package),
            (false, Err(FetchVendoredError::RockspecNotFound(text, dir))) => text@ == package.text@
                && is_slash_text(vendor_dir@, dir@),
            _ => false,
        },
{
    if is_file {
        Ok(rockspec_path(vendor_dir, package, style))
    } else {
        Err(
            FetchVendoredError::RockspecNotFound(
                copy(package.text.as_str()),
                to_slash_lossy(vendor_dir),
            ),
        )
    }
}

/// The vendored package, of which the source or the packed rock is expected to be there.
/// `source_is_dir` and `rock_is_file` say whether there is a directory at the path of the source
/// and a file at the path of the packed rock.
pub fn load_vendored_package(
    vendor_dir: &str,
    package: &PackageSpec,
    source_is_dir: bool,
    rock_is_file: bool,
    style: PathStyle,
) -> (r: Result<VendoredPackage, FetchVendoredError>)
    ensures
        match (source_is_dir, rock_is_file, r) {
            (true, _, Ok(VendoredPackage::Source(path))) => path@ == source_path_of(
                style,
                vendor_dir@,
                *package,
            ),
            (false, true, Ok(VendoredPackage::BinaryRock(path))) => path@ == rock_path_of(
                style,
                vendor_dir@,
                *package,
            ),
            (false, false, Err(FetchVendoredError::PackageNotFound(text, dir))) => text@
                == package.text@ && is_slash_text(vendor_dir@, dir@),
            _ => false,
        },
{
    if source_is_dir {
        Ok(VendoredPackage::Source(source_path(vendor_dir, package, style)))
    } else if rock_is_file {
        Ok(VendoredPackage::BinaryRock(rock_path(vendor_dir, package, style)))
    } else {
        Err(
            FetchVendoredError::PackageNotFound(
                copy(package.text.as_str()),
                to_slash_lossy(vendor_dir),
            ),
        )
    }
}

/// How the vendored package is fetched. Its source is on this machine, and a source that is not
/// packed has its path as the address.
pub fn fetch_vendored_rock(package: VendoredPackage) -> (r: VendoredDownload)
    ensures
        r == match package {
            VendoredPackage::Source(path) => VendoredDownload::RockspecOnly {
                source: RemotePackageSource::Local,
                source_url: Some(RemotePackageSourceUrl::File { path }),
            },
            VendoredPackage::BinaryRock(path) => VendoredDownload::BinaryRock {
                source: RemotePackageSource::Local,
                source_url: None,
                rock_path: path,
            },
        },
{
    match package {
        VendoredPackage::Source(path) => VendoredDownload::RockspecOnly {
            source: RemotePackageSource::Local,
            source_url: Some(RemotePackageSourceUrl::File { path }),
        },
        VendoredPackage::BinaryRock(path) => VendoredDownload::BinaryRock {
            source: RemotePackageSource::Local,
            source_url: None,
            rock_path: path,
        },
    }
}

/// The error of a packed rock that could not be read.
pub fn unreadable_rock(path: &str, reason: String) -> (r: FetchVendoredError)
    ensures
        r matches FetchVendoredError::ReadBinaryRock(text, err) && is_slash_text(path@, text@)
            && err == reason,
{
    FetchVendoredError::ReadBinaryRock(to_slash_lossy(path), reason)
}

/// The error of a rockspec that could not be read.
pub fn unreadable_rockspec(path: &str, reason: String) -> (r: FetchVendoredError)
    ensures
        r matches FetchVendoredError::ReadRockspecContent { rockspec_path, err } && is_slash_text(
            path@,
            rockspec_path@,
        ) && err == reason,
{
    FetchVendoredError::ReadRockspecContent { rockspec_path: to_slash_lossy(path), err: reason }
}

/// The error of a rockspec that could not be parsed.
pub fn unparsable_rockspec(path: &str, reason: String) -> (r: FetchVendoredError)
    ensures
        r matches FetchVendoredError::ParseRockspec { rockspec_path, err } && is_slash_text(
            path@,
            rockspec_path@,
        ) && err == reason,
{
    FetchVendoredError::ParseRockspec { rockspec_path: to_slash_lossy(path), err: reason }
}

/// The vendored files of a package are in the vendor directory under its name and version: the
/// rockspec with a hyphen, the source and the rock with an at sign.
pub proof fn vendored_files_are_named_by_the_package(
    vendor_dir: &str,
    package: &PackageSpec,
    style: PathStyle,
    names: (&str, &str, &str),
    r: (String, String, String),
    expected: (String, String, String),
)
    requires
        names.0@ == package.name@ + "-"@ + package.version@ + ".rockspec"@,
        names.1@ == package.name@ + "@"@ + package.version@,
        names.2@ == package.name@ + "@"@ + package.version@ + ".rock"@,
        call_ensures(rockspec_path, (vendor_dir, package, style), r.0),
        call_ensures(source_path, (vendor_dir, package, style), r.1),
        call_ensures(rock_path, (vendor_dir, package, style), r.2),
        call_ensures(path_join_in, (style, vendor_dir, names.0), expected.0),
        call_ensures(path_join_in, (style, vendor_dir, names.1), expected.1),
        call_ensures(path_join_in, (style, vendor_dir, names.2), expected.2),
    ensures
        r.0@ == expected.0@,
        r.1@ == expected.1@,
        r.2@ == expected.2@,
{
}

/// A vendored rockspec is loaded from its path exactly if there is a file; otherwise the package
/// is reported.
pub proof fn vendored_rockspec_is_a_file(
    vendor_dir: &str,
    package: &PackageSpec,
    is_file: bool,
    style: PathStyle,
    r: Result<String, FetchVendoredError>,
    path: String,
)
    requires
        call_ensures(load_vendored_rockspec, (vendor_dir, package, is_file, style), r),
        call_ensures(rockspec_path, (vendor_dir, package, style), path),
    ensures
        r is Ok <==> is_file,
        r is Ok ==> r->Ok_0@ == path@,
        r is Err ==> r->Err_0 is RockspecNotFound && r->Err_0->RockspecNotFound_0@ == package.text@,
        r is Err ==> is_slash_text(vendor_dir@, r->Err_0->RockspecNotFound_1@),
{
}

/// A vendored source comes before a vendored rock, and the package is reported exactly if there
/// is neither.
pub proof fn vendored_source_comes_first(
    vendor_dir: &str,
    package: &PackageSpec,
    source_is_dir: bool,
    rock_is_file: bool,
    style: PathStyle,
    r: Result<VendoredPackage, FetchVendoredError>,
    source: String,
    rock: String,
)
    requires
        call_ensures(
            load_vendored_package,
            (vendor_dir, package, source_is_dir, rock_is_file, style),
            r,
        ),
        call_ensures(source_path, (vendor_dir, package, style), source),
        call_ensures(rock_path, (vendor_dir, package, style), rock),
    ensures
        r is Ok <==> source_is_dir || rock_is_file,
        source_is_dir ==> r->Ok_0 is Source && r->Ok_0->Source_0@ == source@,
        !source_is_dir && rock_is_file ==> r->Ok_0 is BinaryRock && r->Ok_0->BinaryRock_0@ == rock@,
        r is Err ==> r->Err_0 is PackageNotFound && r->Err_0->PackageNotFound_0@ == package.text@,
        r is Err ==> is_slash_text(vendor_dir@, r->Err_0->PackageNotFound_1@),
{
}

/// A vendored package is local. A source is fetched from its path, and a rock is the rock at its
/// path.
pub proof fn vendored_packages_are_local(
    path: String,
    source: VendoredDownload,
    rock: VendoredDownload,
)
    requires
        call_ensures(fetch_vendored_rock, (VendoredPackage::Source(path),), source),
        call_ensures(fetch_vendored_rock, (VendoredPackage::BinaryRock(path),), rock),
    ensures
        source is RockspecOnly,
        source->RockspecOnly_source is Local,
        source->RockspecOnly_source_url is Some,
        source->RockspecOnly_source_url->0 is File,
        source->RockspecOnly_source_url->0->path@ == path@,
        rock is BinaryRock,
        rock->BinaryRock_source is Local,
        rock->BinaryRock_source_url is None,
        rock->rock_path@ == path@,
{
}

/// What could not be read or parsed is reported with its path and the reason, each as what it is.
pub proof fn unreadable_files_are_reported(
    path: &str,
    reason: String,
    rock: FetchVendoredError,
    rockspec: FetchVendoredError,
    parsed: FetchVendoredError,
)
    requires
        call_ensures(unreadable_rock, (path, reason), rock),
        call_ensures(unreadable_rockspec, (path, reason), rockspec),
        call_ensures(unparsable_rockspec, (path, reason), parsed),
    ensures
        rock is ReadBinaryRock,
        is_slash_text(path@, rock->ReadBinaryRock_0@),
        rock->ReadBinaryRock_1@ == reason@,
        rockspec is ReadRockspecContent,
        is_slash_text(path@, rockspec->ReadRockspecContent_rockspec_path@),
        rockspec->ReadRockspecContent_err@ == reason@,
        parsed is ParseRockspec,
        is_slash_text(path@, parsed->ParseRockspec_rockspec_path@),
        parsed->ParseRockspec_err@ == reason@,
{
}

/// An error of vendored rocks says what could not be found or read, where, and why.
pub proof fn vendored_errors_say_what_failed(err: &FetchVendoredError, r: String)
    requires
        call_ensures(FetchVendoredError::to_message, (err,), r),
    ensures
        err is Search ==> r@ == err->Search_0@,
        err is RockspecNotFound ==> r@ == "could not find a vendored RockSpec for package "@
            + err->RockspecNotFound_0@ + " in vendor directory "@ + err->RockspecNotFound_1@ + "."@,
        err is ReadRockspecContent ==> r@ == "could not read vendored RockSpec content at "@
            + err->ReadRockspecContent_rockspec_path@ + ":\n"@ + err->ReadRockspecContent_err@,
        err is ParseRockspec ==> r@ == "could not parse vendored RockSpec "@
            + err->ParseRockspec_rockspec_path@ + ":\n"@ + err->ParseRockspec_err@,
        err is PackageNotFound ==> r@ == "could not find a source or .rock archive for "@
            + err->PackageNotFound_0@ + " in vendor directory "@ + err->PackageNotFound_1@ + "."@,
        err is ReadBinaryRock ==> r@ == "unable to read binary rock: "@ + err->ReadBinaryRock_0@ + ":\n"@
            + err->ReadBinaryRock_1@,
{
}

} // verus!
