use jabba_shim::noshim::{
    default_home_dir_name, executable_name, home_components, needs_unpack, output_text,
    parse_installed, version_file_name, HomeError,
};

#[test]
fn file_names() {
    assert_eq!(executable_name(true), "jabba-noshim.exe");
    assert_eq!(executable_name(false), "jabba-noshim");
    assert_eq!(version_file_name(), "jabba-version");
    assert_eq!(default_home_dir_name(), ".jabba");
}

#[test]
fn home_resolution() {
    assert_eq!(
        home_components(Some("/srv/jabba".to_string()), Some("/home/u".to_string())),
        Ok(vec!["/srv/jabba".to_string()])
    );
    assert_eq!(
        home_components(Some(String::new()), Some("/home/u".to_string())),
        Ok(vec!["/home/u".to_string(), ".jabba".to_string()])
    );
    assert_eq!(
        home_components(None, Some("/home/u".to_string())),
        Ok(vec!["/home/u".to_string(), ".jabba".to_string()])
    );
    assert_eq!(home_components(None, None), Err(HomeError::NoUserHome));
}

#[test]
fn unpack_decision() {
    assert!(needs_unpack(false, Some("0.13.0"), "0.13.0"));
    assert!(needs_unpack(true, None, "0.13.0"));
    assert!(needs_unpack(true, Some("0.12.0"), "0.13.0"));
    assert!(!needs_unpack(true, Some("0.13.0\n"), " 0.13.0"));
}

#[test]
fn installed_lines() {
    let out = "zulu@17.0.1\r\n  temurin@21 \n\n";
    assert_eq!(parse_installed(out), vec!["zulu@17.0.1", "temurin@21", ""]);
    assert_eq!(parse_installed(""), Vec::<String>::new());
    assert_eq!(parse_installed("\n"), vec![""]);
    assert_eq!(parse_installed("a"), vec!["a"]);
    assert_eq!(parse_installed("a\n"), vec!["a"]);
}

#[test]
fn installed_lines_agree_with_std() {
    for out in ["", "\n", "a", "a\n", "a\r\nb", "a\n\nb\n", " x \r\n y\r", "\r\n\r\n"] {
        let expected: Vec<String> = out.lines().map(|x| x.trim().to_string()).collect();
        assert_eq!(parse_installed(out), expected, "{out:?}");
    }
}

#[test]
fn output_is_trimmed() {
    assert_eq!(output_text("0.13.0\n"), "0.13.0");
    assert_eq!(output_text("\n"), "");
}
