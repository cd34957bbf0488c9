use multiplex::terminal_profiles::{ChangePlan, Platform, ProfileStatus, ProfileTarget, TerminalProfiles};

const ROOT: &str = "/fixture";

fn profiles(platform: Platform) -> TerminalProfiles {
    TerminalProfiles::new(
        platform,
        format!("{ROOT}/home"),
        Some(format!("{ROOT}/local")),
        Some(format!("{ROOT}/roaming")),
        match platform {
            Platform::Windows => r"C:\Program Files\Multiplex\multiplex-cli.exe".to_owned(),
            _ => "/Applications/Multiplex.app/Contents/MacOS/multiplex-cli".to_owned(),
        },
    )
}

/// What a file holds after a plan is applied to what it held before.
fn applied(plan: &ChangePlan, before: Option<String>) -> Option<String> {
    match plan.changes.first() {
        Some(change) => {
            assert_eq!(change.before, before, "the plan was made from what the file holds");
            change.after.clone()
        }
        None => before,
    }
}

#[test]
fn a_terminal_that_is_not_installed_offers_nothing() {
    let profiles = profiles(Platform::Windows);
    assert_eq!(
        profiles.status(ProfileTarget::WindowsTerminal, false, None),
        ProfileStatus::Unavailable
    );
    assert!(profiles.enable_plan(ProfileTarget::WindowsTerminal, false, None).is_empty());
    // No iTerm2 on Windows, whatever is on disk.
    assert_eq!(
        profiles.status(ProfileTarget::ITerm2, true, None),
        ProfileStatus::Unavailable
    );
    assert_eq!(profiles.profile_path(ProfileTarget::ITerm2), None);
    assert!(profiles.installed_folders(ProfileTarget::ITerm2).is_empty());
}

#[test]
fn windows_terminal_gets_a_fragment_and_loses_it_again() {
    let profiles = profiles(Platform::Windows);
    assert_eq!(
        profiles.installed_folders(ProfileTarget::WindowsTerminal),
        vec![
            format!("{ROOT}/local/Packages/Microsoft.WindowsTerminal_8wekyb3d8bbwe"),
            format!("{ROOT}/local/Packages/Microsoft.WindowsTerminalPreview_8wekyb3d8bbwe"),
            format!("{ROOT}/local/Microsoft/Windows Terminal"),
        ]
    );
    assert_eq!(
        profiles.profile_path(ProfileTarget::WindowsTerminal),
        Some(format!("{ROOT}/local/Microsoft/Windows Terminal/Fragments/Multiplex/multiplex.json"))
    );
    assert_eq!(
        profiles.status(ProfileTarget::WindowsTerminal, true, None),
        ProfileStatus::Off
    );
    let plan = profiles.enable_plan(ProfileTarget::WindowsTerminal, true, None);
    let written = plan.changes[0].after.clone().unwrap();
    let parsed: serde_json::Value = serde_json::from_str(&written).unwrap();
    assert_eq!(parsed["profiles"][0]["name"], "Multiplex");
    assert_eq!(
        parsed["profiles"][0]["commandline"],
        r#""C:\Program Files\Multiplex\multiplex-cli.exe" shell"#
    );
    let file = applied(&plan, None);
    assert_eq!(
        profiles.status(ProfileTarget::WindowsTerminal, true, file.clone()),
        ProfileStatus::On
    );
    let removal = profiles.disable_plan(ProfileTarget::WindowsTerminal, file.clone());
    let file = applied(&removal, file);
    assert_eq!(file, None);
    assert_eq!(
        profiles.status(ProfileTarget::WindowsTerminal, true, file),
        ProfileStatus::Off
    );
}

#[test]
fn a_profile_left_by_a_moved_app_is_outdated() {
    let plan = profiles(Platform::Windows).enable_plan(ProfileTarget::WindowsTerminal, true, None);
    let file = applied(&plan, None);
    let moved = TerminalProfiles::new(
        Platform::Windows,
        format!("{ROOT}/home"),
        Some(format!("{ROOT}/local")),
        None,
        r"D:\Multiplex\multiplex-cli.exe".to_owned(),
    );
    assert_eq!(
        moved.status(ProfileTarget::WindowsTerminal, true, file),
        ProfileStatus::Outdated
    );
}

#[test]
fn iterm2_gets_a_dynamic_profile() {
    let profiles = profiles(Platform::MacOs);
    assert_eq!(
        profiles.installed_folders(ProfileTarget::ITerm2),
        vec![format!("{ROOT}/home/Library/Application Support/iTerm2")]
    );
    let plan = profiles.enable_plan(ProfileTarget::ITerm2, true, None);
    let parsed: serde_json::Value =
        serde_json::from_str(plan.changes[0].after.as_deref().unwrap()).unwrap();
    assert_eq!(
        parsed["Profiles"][0]["Command"],
        "'/Applications/Multiplex.app/Contents/MacOS/multiplex-cli' shell"
    );
    let file = applied(&plan, None);
    assert_eq!(profiles.status(ProfileTarget::ITerm2, true, file), ProfileStatus::On);
}

#[test]
fn a_quote_in_the_launcher_path_is_escaped_for_the_login_shell() {
    let profiles = TerminalProfiles::new(
        Platform::MacOs,
        "/Users/me".to_owned(),
        None,
        None,
        "/Apps/Bob's \"Tools\"/multiplex-cli".to_owned(),
    );
    let plan = profiles.enable_plan(ProfileTarget::ITerm2, true, None);
    let parsed: serde_json::Value =
        serde_json::from_str(plan.changes[0].after.as_deref().unwrap()).unwrap();
    assert_eq!(
        parsed["Profiles"][0]["Command"],
        "'/Apps/Bob'\\''s \"Tools\"/multiplex-cli' shell"
    );
}

#[test]
fn vscode_settings_get_one_block_and_are_restored_byte_for_byte() {
    let profiles = profiles(Platform::Windows);
    assert_eq!(
        profiles.installed_folders(ProfileTarget::VsCode),
        vec![format!("{ROOT}/roaming/Code/User")]
    );
    let untouched = "{\n    // my settings\n    \"editor.fontSize\": 14,\n    \"files.autoSave\": \"afterDelay\"\n}\n";
    let file = Some(untouched.to_owned());
    assert_eq!(profiles.status(ProfileTarget::VsCode, true, file.clone()), ProfileStatus::Off);

    let plan = profiles.enable_plan(ProfileTarget::VsCode, true, file.clone());
    let file = applied(&plan, file);
    let written = file.clone().unwrap();
    assert!(written.contains("// >>> multiplex terminal profile >>>"));
    assert!(written.contains("\"terminal.integrated.profiles.windows\""));
    assert!(written.contains(r#""path": "C:\\Program Files\\Multiplex\\multiplex-cli.exe""#));
    assert!(written.contains("\"editor.fontSize\": 14"));
    assert_eq!(profiles.status(ProfileTarget::VsCode, true, file.clone()), ProfileStatus::On);

    let removal = profiles.disable_plan(ProfileTarget::VsCode, file.clone());
    assert_eq!(applied(&removal, file), Some(untouched.to_owned()));
}

#[test]
fn empty_or_missing_vscode_settings_get_a_block_without_a_dangling_comma() {
    let profiles = profiles(Platform::MacOs);
    let plan = profiles.enable_plan(ProfileTarget::VsCode, true, None);
    let created = plan.changes[0].after.clone().unwrap();
    assert!(created.contains("\"terminal.integrated.profiles.osx\""));
    assert!(!created.contains("},\n  // <<<"));
    let plan = profiles.enable_plan(ProfileTarget::VsCode, true, Some("{}\n".to_owned()));
    assert!(!plan.changes[0].after.as_deref().unwrap().contains("},\n  // <<<"));
    // A member after the block gets its comma.
    let plan = profiles.enable_plan(ProfileTarget::VsCode, true, Some("{\n  /* c */ \"a\": 1\n}\n".to_owned()));
    assert!(plan.changes[0].after.as_deref().unwrap().contains("},\n  // <<<"));
}

#[test]
fn existing_terminal_profiles_are_left_for_a_person_to_edit() {
    let profiles = profiles(Platform::Windows);
    let file = Some(
        "{\n  \"terminal.integrated.profiles.windows\": { \"Git Bash\": { \"path\": \"bash.exe\" } }\n}\n"
            .to_owned(),
    );
    let ProfileStatus::NeedsManualEdit { manual } = profiles.status(ProfileTarget::VsCode, true, file.clone())
    else {
        panic!("expected a manual edit");
    };
    assert!(manual.contains("\"Multiplex\": { \"path\""));
    assert!(profiles.enable_plan(ProfileTarget::VsCode, true, file).is_empty());
}

#[test]
fn a_plan_records_the_contents_it_was_made_from() {
    let profiles = profiles(Platform::Windows);
    let before = Some("{\n  \"a\": 1\n}\n".to_owned());
    let plan = profiles.enable_plan(ProfileTarget::VsCode, true, before.clone());
    assert_eq!(plan.changes.len(), 1);
    assert_eq!(plan.changes[0].before, before);
    assert_eq!(
        plan.changes[0].path,
        format!("{ROOT}/roaming/Code/User/settings.json")
    );
    // Enabling what is already on changes nothing.
    let on = plan.changes[0].after.clone();
    assert!(profiles.enable_plan(ProfileTarget::VsCode, true, on).is_empty());
    // Disabling what was never there changes nothing.
    assert!(profiles.disable_plan(ProfileTarget::VsCode, before).is_empty());
    assert!(profiles.disable_plan(ProfileTarget::WindowsTerminal, None).is_empty());
}

#[test]
fn targets_are_labelled_for_people() {
    assert_eq!(ProfileTarget::WindowsTerminal.label(), "Windows Terminal");
    assert_eq!(ProfileTarget::VsCode.label(), "Visual Studio Code");
    assert_eq!(ProfileTarget::ITerm2.label(), "iTerm2");
    assert_eq!(ProfileTarget::all().len(), 3);
    let linux = profiles(Platform::Linux);
    assert_eq!(
        linux.profile_path(ProfileTarget::VsCode),
        Some(format!("{ROOT}/home/.config/Code/User/settings.json"))
    );
}

#[test]
fn settings_whose_brace_shares_its_line_come_back_with_a_line_break() {
    let profiles = profiles(Platform::Linux);
    let file = Some("{}\n".to_owned());
    let plan = profiles.enable_plan(ProfileTarget::VsCode, true, file.clone());
    let file = applied(&plan, file);
    assert_eq!(profiles.status(ProfileTarget::VsCode, true, file.clone()), ProfileStatus::On);
    let removal = profiles.disable_plan(ProfileTarget::VsCode, file.clone());
    assert_eq!(applied(&removal, file), Some("{\n}\n".to_owned()));
}

#[test]
fn any_vscode_settings_read_as_on_once_enabled_and_a_second_enable_changes_nothing() {
    let profiles = profiles(Platform::Linux);
    for before in [None, Some("{}".to_owned()), Some("{ \"a\": 1 }\n".to_owned()), Some(String::new())] {
        let plan = profiles.enable_plan(ProfileTarget::VsCode, true, before.clone());
        let file = applied(&plan, before);
        assert_eq!(profiles.status(ProfileTarget::VsCode, true, file.clone()), ProfileStatus::On);
        assert!(profiles.enable_plan(ProfileTarget::VsCode, true, file).is_empty());
    }
    let moved = TerminalProfiles::new(
        Platform::Linux,
        format!("{ROOT}/home"),
        Some(format!("{ROOT}/local")),
        Some(format!("{ROOT}/roaming")),
        "/opt/elsewhere/multiplex".to_owned(),
    );
    let plan = profiles.enable_plan(ProfileTarget::VsCode, true, Some("{}\n".to_owned()));
    let file = applied(&plan, Some("{}\n".to_owned()));
    assert_eq!(moved.status(ProfileTarget::VsCode, true, file.clone()), ProfileStatus::Outdated);
    let again = moved.enable_plan(ProfileTarget::VsCode, true, file.clone());
    let file = applied(&again, file);
    assert_eq!(moved.status(ProfileTarget::VsCode, true, file), ProfileStatus::On);
}
