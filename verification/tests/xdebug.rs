use pvm::commands::xdebug::{
    check_extension, edit_ini, is_xdebug_line_str, lines_of, parse_mode, render_ini_text, xdebug_line,
    xdebug_so_path, xdebug_target, XdebugError, XdebugMode,
};
use pvm::fs::{ResolveError, VersionDir};

fn names(v: &[&str]) -> Vec<String> {
    v.iter().map(|s| s.to_string()).collect()
}

fn cli_dir(name: &str) -> VersionDir {
    VersionDir { name: name.to_string(), is_dir: true, has_php: true, has_fpm: false, has_micro: false }
}

const HEADER: &str = "; php.ini managed by pvm\n";

#[test]
fn test_xdebug_on_and_off_modify_php_ini() {
    let installed = names(&["8.3.30"]);
    let dirs = vec![cli_dir("8.3.30")];
    let target = xdebug_target(&installed, &dirs, Some("8.3.30"), "system").unwrap();
    assert_eq!(target, "8.3.30");
    let so = xdebug_so_path("/p/versions/8.3.30/bin");
    assert_eq!(check_extension(XdebugMode::On, true, &target, &so), Ok(()));
    let line = xdebug_line(&so);
    let (enabled, _) = edit_ini(HEADER, XdebugMode::On, &line);
    assert!(
        enabled.contains("zend_extension="),
        "php.ini should contain a zend_extension line after enabling xdebug"
    );
    let (disabled, removed) = edit_ini(&enabled, XdebugMode::Off, &line);
    assert!(removed);
    assert!(
        !disabled
            .lines()
            .any(|l| l.trim_start().starts_with("zend_extension") && l.contains("xdebug")),
        "php.ini should not contain a zend_extension xdebug line after disabling xdebug"
    );
}

#[test]
fn modes_are_case_insensitive() {
    assert_eq!(parse_mode("on"), Ok(XdebugMode::On));
    assert_eq!(parse_mode("ON"), Ok(XdebugMode::On));
    assert_eq!(parse_mode("Off"), Ok(XdebugMode::Off));
    let e = parse_mode("enable").unwrap_err();
    assert_eq!(e, XdebugError::InvalidMode("enable".to_string()));
    assert_eq!(e.message(), "Invalid mode 'enable'. Expected 'on' or 'off'.");
}

#[test]
fn target_defaults_to_active_then_newest() {
    let installed = names(&["8.2.1", "8.3.30"]);
    let dirs = vec![cli_dir("8.2.1"), cli_dir("8.3.30")];
    assert_eq!(xdebug_target(&installed, &dirs, None, "8.2.1"), Ok("8.2.1".to_string()));
    assert_eq!(xdebug_target(&installed, &dirs, None, "system"), Ok("8.3.30".to_string()));
    assert_eq!(xdebug_target(&[], &[], None, "system"), Err(XdebugError::NothingInstalled));
    assert_eq!(
        xdebug_target(&installed, &dirs, Some("9.9"), "system"),
        Err(XdebugError::Resolve(ResolveError::NotInstalled("9.9".to_string())))
    );
    assert_eq!(
        xdebug_target(&installed, &[], None, "8.2.1"),
        Err(XdebugError::NotInstalled("8.2.1".to_string()))
    );
}

#[test]
fn enabling_needs_the_extension() {
    let e = check_extension(XdebugMode::On, false, "8.3.30", "/x/xdebug.so").unwrap_err();
    assert_eq!(
        e.message(),
        "xdebug shared extension not found for PHP 8.3.30 at /x/xdebug.so. Ensure your build includes xdebug."
    );
    assert_eq!(check_extension(XdebugMode::Off, false, "8.3.30", "/x/xdebug.so"), Ok(()));
}

#[test]
fn xdebug_lines_are_recognised() {
    assert!(is_xdebug_line_str("zend_extension=\"/x/xdebug.so\""));
    assert!(is_xdebug_line_str("  zend_extension=/x/XDebug.so  "));
    assert!(!is_xdebug_line_str("; zend_extension=xdebug.so"));
    assert!(!is_xdebug_line_str("zend_extension=opcache.so"));
    assert!(!is_xdebug_line_str("extension=xdebug.so"));
}

#[test]
fn lines_follow_str_lines() {
    assert_eq!(lines_of("a\nb\r\nc"), names(&["a", "b", "c"]));
    assert_eq!(lines_of("a\n"), names(&["a"]));
    assert_eq!(lines_of(""), Vec::<String>::new());
    assert_eq!(lines_of("\n\nx\r"), names(&["", "", "x\r"]));
    assert_eq!(render_ini_text(&names(&["a", "b"])), "a\nb\n");
    assert_eq!(render_ini_text(&[]), HEADER);
}

#[test]
fn enabling_replaces_every_xdebug_line() {
    let ini = "memory_limit=1G\nzend_extension=/old/xdebug.so\nZEND_EXTENSION=x\n zend_extension=\"/o/XDEBUG.so\"\n";
    let line = xdebug_line("/new/ext/xdebug.so");
    let (out, removed) = edit_ini(ini, XdebugMode::On, &line);
    assert!(removed);
    assert_eq!(
        out,
        "memory_limit=1G\nZEND_EXTENSION=x\nzend_extension=\"/new/ext/xdebug.so\"\n"
    );
    // Enabling again changes nothing.
    let (again, _) = edit_ini(&out, XdebugMode::On, &line);
    assert_eq!(again, out);
}

#[test]
fn disabling_without_xdebug_reports_nothing_removed() {
    let (out, removed) = edit_ini("memory_limit=1G\n", XdebugMode::Off, "");
    assert!(!removed);
    assert_eq!(out, "memory_limit=1G\n");
    let (emptied, removed) = edit_ini("zend_extension=xdebug.so\n", XdebugMode::Off, "");
    assert!(removed);
    assert_eq!(emptied, HEADER);
}
