//! The bundle that the menu bar application is installed in.

use vstd::prelude::*;

use crate::card_note;
use crate::chars;
use crate::paths;
use crate::text;

verus! {

/// The first position from `start` on at which the folder of the applications is given.
pub open spec fn folder_flag(args: Seq<Seq<char>>, start: int) -> Option<int>
    decreases args.len() - start,
{
    if start + 1 >= args.len() {
        None
    } else if args[start] == "--apps-dir"@ {
        Some(start)
    } else {
        folder_flag(args, start + 1)
    }
}

/// The folder of the applications: the one that is given, else the one below the home directory,
/// else one here.
pub open spec fn apps_dir_of(args: Seq<Seq<char>>, home: Option<Seq<char>>) -> Seq<char> {
    match folder_flag(args, 0) {
        Some(i) => args[i + 1],
        None => paths::joined(
            match home {
                Some(h) => h,
                None => "."@,
            },
            "Applications"@,
        ),
    }
}

/// Tells whether the application is to be installed.
pub fn wants_install(args: &Vec<String>) -> (install: bool)
    ensures
        install == text::texts(args@).contains("--install"@),
{
    card_note::contains_text(args, "--install")
}

/// The folder of the applications.
pub fn apps_dir(args: &Vec<String>, home: Option<&str>) -> (dir: String)
    ensures
        dir@ == apps_dir_of(
            text::texts(args@),
            match home {
                Some(h) => Some(h@),
                None => None,
            },
        ),
{
    let ghost all = text::texts(args@);
    let mut i: usize = 0;
    while args.len() - i > 1
        invariant
            all == text::texts(args@),
            i <= args.len(),
            folder_flag(all, 0) == folder_flag(all, i as int),
        decreases args.len() - i,
    {
        assert(all[i as int] == args@[i as int]@);
        if chars::same_text(args[i].as_str(), "--apps-dir") {
            return args[i + 1].clone();
        }
        i = i + 1;
    }
    match home {
        Some(h) => paths::join(h, "Applications"),
        None => paths::join(".", "Applications"),
    }
}

/// What the system is told of the bundle before its version.
pub open spec fn plist_head() -> Seq<char> {
    "<?xml version=\"1.0\" encoding=\"UTF-8\"?>\n<!DOCTYPE plist PUBLIC \"-//Apple//DTD PLIST 1.0//EN\" \"http://www.apple.com/DTDs/PropertyList-1.0.dtd\">\n<plist version=\"1.0\">\n<dict>\n    <key>CFBundleIdentifier</key>\n    <string>com.birsax2.bear-anki-app</string>\n    <key>CFBundleName</key>\n    <string>BearAnki</string>\n    <key>CFBundleDisplayName</key>\n    <string>Bear Anki Sync</string>\n    <key>CFBundleExecutable</key>\n    <string>bear-anki-app</string>\n    <key>CFBundleIconFile</key>\n    <string>AppIcon</string>\n    <key>CFBundlePackageType</key>\n    <string>APPL</string>\n    <key>CFBundleShortVersionString</key>\n    <string>"@
}

/// What the system is told of the bundle behind its version.
pub open spec fn plist_tail() -> Seq<char> {
    "</string>\n    <key>CFBundleVersion</key>\n    <string>1</string>\n    <key>LSMinimumSystemVersion</key>\n    <string>12.0</string>\n    <key>LSUIElement</key>\n    <true/>\n    <key>NSHighResolutionCapable</key>\n    <true/>\n</dict>\n</plist>"@
}

/// What the system is told of the bundle.
pub fn info_plist(version: &str) -> (plist: String)
    ensures
        plist@ == plist_head() + version@ + plist_tail(),
{
    let mut plist = "<?xml version=\"1.0\" encoding=\"UTF-8\"?>\n<!DOCTYPE plist PUBLIC \"-//Apple//DTD PLIST 1.0//EN\" \"http://www.apple.com/DTDs/PropertyList-1.0.dtd\">\n<plist version=\"1.0\">\n<dict>\n    <key>CFBundleIdentifier</key>\n    <string>com.birsax2.bear-anki-app</string>\n    <key>CFBundleName</key>\n    <string>BearAnki</string>\n    <key>CFBundleDisplayName</key>\n    <string>Bear Anki Sync</string>\n    <key>CFBundleExecutable</key>\n    <string>bear-anki-app</string>\n    <key>CFBundleIconFile</key>\n    <string>AppIcon</string>\n    <key>CFBundlePackageType</key>\n    <string>APPL</string>\n    <key>CFBundleShortVersionString</key>\n    <string>".to_owned();
    plist.append(version);
    plist.append(
        "</string>\n    <key>CFBundleVersion</key>\n    <string>1</string>\n    <key>LSMinimumSystemVersion</key>\n    <string>12.0</string>\n    <key>LSUIElement</key>\n    <true/>\n    <key>NSHighResolutionCapable</key>\n    <true/>\n</dict>\n</plist>",
    );
    plist
}

/// The name of the file with the icon of a size, in points, for a screen of simple or of double
/// resolution.
pub open spec fn icon_name_of(size: nat, double: bool) -> Seq<char> {
    "icon_"@ + text::decimal(size) + "x"@ + text::decimal(size) + (if double {
        "@2x"@
    } else {
        Seq::empty()
    }) + ".png"@
}

/// The name of the file with an icon.
pub fn icon_name(size: u32, double: bool) -> (name: String)
    ensures
        name@ == icon_name_of(size as nat, double),
{
    let digits = chars::decimal(size as u64);
    let mut name = "icon_".to_owned();
    name.append(digits.as_str());
    name.append("x");
    name.append(digits.as_str());
    if double {
        name.append("@2x");
    }
    name.append(".png");
    assert(name@ =~= icon_name_of(size as nat, double));
    name
}

} // verus!
