use sirno::search::{rg_args_include_preprocessor, RgRequest, RgResult};

fn args(items: &[&str]) -> Vec<String> {
    items.iter().map(|item| (*item).to_owned()).collect()
}

#[test]
fn preprocessor_arguments_are_recognized() {
    assert!(rg_args_include_preprocessor(&args(&["--pre", "cat", "needle"])));
    assert!(rg_args_include_preprocessor(&args(&["--pre=cat", "needle"])));
    assert!(!rg_args_include_preprocessor(&args(&["--pre-glob", "*.md", "needle"])));
    assert!(!rg_args_include_preprocessor(&args(&["needle"])));
}

#[test]
fn footer_filtering_refuses_a_preprocessor_of_its_own() {
    let request = RgRequest { with_generated_footer: false, args: args(&["--pre=cat", "needle"]) };
    let error = request.check().unwrap_err();
    assert_eq!(
        error.message(),
        "generated-footer filtering cannot be combined with `rg --pre`; use `--with-generated-footer`"
    );

    let request = RgRequest { with_generated_footer: true, args: args(&["--pre=cat", "needle"]) };
    assert!(request.check().is_ok());

    let request = RgRequest { with_generated_footer: false, args: args(&["needle"]) };
    assert!(request.check().is_ok());
}

#[test]
fn rg_result_reports_exit_codes_that_fit_a_byte() {
    let found = RgResult::new(true, Some(0), "docs/alpha.md:1:needle\n".to_owned(), String::new());
    assert!(found.ok);
    assert_eq!(found.exit_code, 0);
    assert_eq!(found.stdout, "docs/alpha.md:1:needle\n");

    assert_eq!(RgResult::new(false, Some(2), String::new(), "error".to_owned()).exit_code, 2);
    assert_eq!(RgResult::new(false, None, String::new(), String::new()).exit_code, 1);
    assert_eq!(RgResult::new(false, Some(300), String::new(), String::new()).exit_code, 1);
    assert_eq!(RgResult::new(false, Some(-1), String::new(), String::new()).exit_code, 1);
}
