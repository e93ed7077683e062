use file_newer::{EnvVars, PathError};

fn test_env() -> EnvVars {
    let mut env = EnvVars::new();
    env.insert(
        String::from("USERPROFILE"),
        String::from("C:\\Users\\someone"),
    );
    env.insert(String::from("SYSTEMDRIVE"), String::from("C:"));
    env
}

#[test]
fn evaluate_path_vars() {
    let env = test_env();
    let epv = |vr: &str| {
        // epv - evaluate path value
        file_newer::evaluate_path_vars(vr, &env).unwrap()
    };
    let test_eq = |in_str: &str, out_str: String| {
        assert_eq!(epv(in_str), out_str.to_owned());
    };

    let user_pth = |ext: &str| -> String {
        let mut user_profile = String::from("C:\\Users\\someone");
        user_profile.push_str(ext);
        user_profile
    };

    test_eq("~", user_pth("\\"));
    test_eq("~/Some/Path", user_pth("\\Some\\Path\\"));
    test_eq("~\\Some\\Path\\", user_pth("\\Some\\Path\\"));
    test_eq("~\\\\Some\\Path\\", user_pth("\\Some\\Path\\"));
    test_eq("~\\", user_pth("\\"));
    test_eq("%USERPROFILE%", user_pth("\\"));
    test_eq("/users", "C:\\users\\".to_string());
    test_eq("/users\\public", "C:\\users\\public\\".to_string());
}

#[test]
fn missing_variable_is_reported_by_name() {
    let env = test_env();
    let r = file_newer::evaluate_path_vars("%UNSET_VAR%/x", &env);
    assert_eq!(
        r,
        Err(PathError::MissingVariable(String::from("UNSET_VAR")))
    );
}

#[test]
fn missing_variable_on_empty_env() {
    let env = EnvVars::new();
    let r = file_newer::evaluate_path_vars("~/anything", &env);
    assert_eq!(
        r,
        Err(PathError::MissingVariable(String::from("USERPROFILE")))
    );
}

#[test]
fn canonical_shape_of_outputs() {
    let env = test_env();
    for raw in [
        "~",
        "~/a//b",
        "a/b/c",
        "a//b////c/",
        "%USERPROFILE%/Desktop",
        "/users//public",
        "",
    ] {
        let p = file_newer::evaluate_path_vars(raw, &env).unwrap();
        assert!(p.ends_with('\\'), "no trailing separator in {:?}", p);
        assert!(!p.contains('/'), "forward slash left in {:?}", p);
        assert!(!p.contains("\\\\"), "doubled separator in {:?}", p);
    }
}

#[test]
fn resolve_is_idempotent_on_canonical_paths() {
    let env = test_env();
    for raw in ["~/Some/Path", "a/b", "%USERPROFILE%", "/users"] {
        let once = file_newer::evaluate_path_vars(raw, &env).unwrap();
        let twice = file_newer::evaluate_path_vars(&once, &env).unwrap();
        assert_eq!(once, twice);
    }
}

#[test]
fn variable_value_gets_separator_and_segments_joined() {
    let mut env = EnvVars::new();
    env.insert(String::from("TARGET"), String::from("D:\\data"));
    // segments after the closing delimiter are appended literally
    let p = file_newer::evaluate_path_vars("%TARGET%sub/deeper", &env).unwrap();
    assert_eq!(p, "D:\\data\\sub\\deeper\\");
}

#[test]
fn empty_input_resolves_to_single_separator() {
    let env = test_env();
    assert_eq!(file_newer::evaluate_path_vars("", &env).unwrap(), "\\");
}

#[test]
fn env_lookup_first_binding_wins() {
    let mut env = EnvVars::new();
    env.insert(String::from("X"), String::from("first"));
    env.insert(String::from("X"), String::from("second"));
    assert_eq!(env.get("X"), Some(String::from("first")));
    assert_eq!(env.get("Y"), None);
}
