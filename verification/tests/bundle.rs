use bear_anki_sync::bundle::{apps_dir, icon_name, info_plist, wants_install};

fn args(list: &[&str]) -> Vec<String> {
    list.iter().map(|arg| (*arg).to_owned()).collect()
}

#[test]
fn the_folder_of_the_applications_can_be_given() {
    let given = args(&["app", "--install", "--apps-dir", "/x"]);
    assert!(wants_install(&given));
    assert_eq!(apps_dir(&given, Some("/Users/me")), "/x");
    let plain = args(&["app", "--install"]);
    assert_eq!(apps_dir(&plain, Some("/Users/me")), "/Users/me/Applications");
    assert_eq!(apps_dir(&plain, None), "./Applications");
    let cut = args(&["app", "--apps-dir"]);
    assert!(!wants_install(&cut));
    assert_eq!(apps_dir(&cut, None), "./Applications");
}

#[test]
fn the_bundle_is_described() {
    let plist = info_plist("1.2.3");
    assert!(plist.starts_with("<?xml version=\"1.0\" encoding=\"UTF-8\"?>\n<!DOCTYPE plist"));
    assert!(plist.contains(
        "    <key>CFBundleShortVersionString</key>\n    <string>1.2.3</string>\n    <key>CFBundleVersion</key>\n    <string>1</string>\n"
    ));
    assert!(plist.ends_with("    <true/>\n</dict>\n</plist>"));
}

#[test]
fn icons_are_named_by_their_size() {
    assert_eq!(icon_name(16, false), "icon_16x16.png");
    assert_eq!(icon_name(256, true), "icon_256x256@2x.png");
}
