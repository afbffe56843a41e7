use roast::lines::default_for_separator;
use roast::report::remove_all;
use roast::{
    collect_sortables, count_results, plan_write, relative_label, sort_contents, sort_json_string,
    Candidate, JsonError, LineEnding, SortResult,
};

fn candidate(path: &str, canonical: Option<&str>) -> Candidate {
    Candidate { path: path.to_string(), canonical: canonical.map(|c| c.to_string()), index: 0 }
}

#[test]
fn example_string_array_sorted_case_insensitively() {
    let out = sort_json_string(r#"["a","A","z","Z","m","M"]"#, true, true, &LineEnding::Lf, 2);
    assert_eq!(out.unwrap(), "[\n  \"a\",\n  \"A\",\n  \"m\",\n  \"M\",\n  \"z\",\n  \"Z\"\n]\n");
}

#[test]
fn example_object_keys_with_tabs() {
    let out = sort_json_string(r#"{"z":1,"a":2}"#, false, false, &LineEnding::Lf, 1);
    assert_eq!(out.unwrap(), "{\n\t\"a\": 2,\n\t\"z\": 1\n}\n");
}

#[test]
fn malformed_input_is_parse_error_and_not_written() {
    let planned = sort_contents("not json", false, false, false, &LineEnding::Lf, 1);
    assert!(matches!(planned, Err(JsonError::ParseError)));
}

#[test]
fn dry_run_writes_nothing() {
    let planned = sort_contents("{\"b\":1,\"a\":2}", true, true, false, &LineEnding::Lf, 2);
    assert!(matches!(planned, Ok(None)));
    let planned = sort_contents("{\"b\":1,\"a\":2}", false, true, false, &LineEnding::Lf, 2);
    assert_eq!(planned.unwrap().unwrap(), "{\n  \"a\": 2,\n  \"b\": 1\n}\n");
}

#[test]
fn plan_write_passes_failures_through() {
    assert!(matches!(plan_write(Err(JsonError::WriteError), false), Err(JsonError::WriteError)));
    assert!(matches!(plan_write(Ok("x".to_string()), true), Ok(None)));
    assert_eq!(plan_write(Ok("x".to_string()), false).unwrap().unwrap(), "x");
}

#[test]
fn sorting_twice_changes_nothing() {
    let input = r#"{"b":[3,{"y":null,"x":[true,false]}],"a":["b","C","a"],"c":{"e":"é","d":-1.5e3}}"#;
    for sort_arrays in [false, true] {
        for le in [LineEnding::SystemDefault, LineEnding::Cr, LineEnding::Lf, LineEnding::CrLf] {
            let once = sort_json_string(input, true, sort_arrays, &le, 2).unwrap();
            let twice = sort_json_string(&once, true, sort_arrays, &le, 2).unwrap();
            assert_eq!(once, twice);
        }
    }
}

#[test]
fn keys_ascend_at_every_depth() {
    let out = sort_json_string(r#"[{"b":{"d":1,"c":2},"a":0}]"#, true, false, &LineEnding::Lf, 1);
    assert_eq!(
        out.unwrap(),
        "[\n {\n  \"a\": 0,\n  \"b\": {\n   \"c\": 2,\n   \"d\": 1\n  }\n }\n]\n"
    );
}

#[test]
fn keys_order_by_code_point() {
    let out = sort_json_string(r#"{"b":1,"B":2,"é":3,"a":4}"#, true, false, &LineEnding::Lf, 1);
    assert_eq!(out.unwrap(), "{\n \"B\": 2,\n \"a\": 4,\n \"b\": 1,\n \"é\": 3\n}\n");
}

#[test]
fn mixed_array_keeps_its_order() {
    let out = sort_json_string(r#"["b",1,"a"]"#, true, true, &LineEnding::Lf, 1);
    assert_eq!(out.unwrap(), "[\n \"b\",\n 1,\n \"a\"\n]\n");
}

#[test]
fn equal_strings_keep_their_order() {
    let out = sort_json_string(r#"["b","B","a","b"]"#, true, true, &LineEnding::Lf, 0);
    assert_eq!(out.unwrap(), "[\n\"a\",\n\"b\",\n\"B\",\n\"b\"\n]\n");
}

#[test]
fn arrays_inside_unsorted_arrays_are_untouched() {
    let out = sort_json_string(r#"[["b","a"],{"k":["z","y"]}]"#, true, false, &LineEnding::Lf, 1);
    assert_eq!(
        out.unwrap(),
        "[\n [\n  \"b\",\n  \"a\"\n ],\n {\n  \"k\": [\n   \"z\",\n   \"y\"\n  ]\n }\n]\n"
    );
    let out = sort_json_string(r#"[["b","a"],{"k":["z","y"]}]"#, true, true, &LineEnding::Lf, 1);
    assert_eq!(
        out.unwrap(),
        "[\n [\n  \"a\",\n  \"b\"\n ],\n {\n  \"k\": [\n   \"y\",\n   \"z\"\n  ]\n }\n]\n"
    );
}

#[test]
fn empty_containers_stay_on_one_line() {
    let out = sort_json_string(r#"{"a":[],"b":{}}"#, true, true, &LineEnding::Lf, 2);
    assert_eq!(out.unwrap(), "{\n  \"a\": [],\n  \"b\": {}\n}\n");
    assert_eq!(sort_json_string("[]", true, true, &LineEnding::CrLf, 2).unwrap(), "[]\r\n");
}

#[test]
fn scalars_and_escapes() {
    let out = sort_json_string("\"a\\nb\\u0001\\\"\"", true, false, &LineEnding::Lf, 2);
    assert_eq!(out.unwrap(), "\"a\\nb\\u0001\\\"\"\n");
    let out = sort_json_string("[null,true,false,1.0,-0,10e2]", true, false, &LineEnding::Lf, 1);
    assert_eq!(out.unwrap(), "[\n null,\n true,\n false,\n 1.0,\n -0.0,\n 1000.0\n]\n");
}

#[test]
fn crlf_input_keeps_crlf() {
    let input = "{\r\n  \"b\": 1,\r\n  \"a\": 2\r\n}";
    let out = sort_json_string(input, true, false, &LineEnding::SystemDefault, 2).unwrap();
    assert_eq!(out, "{\r\n  \"a\": 2,\r\n  \"b\": 1\r\n}\r\n");
    let again = sort_json_string(&out, true, false, &LineEnding::SystemDefault, 2).unwrap();
    assert_eq!(again, out);
}

#[test]
fn cr_request_leaves_no_line_feed() {
    let input = "{\r\n  \"b\": \"x\\ny\",\r\n  \"a\": 2\r\n}\r\n";
    let out = sort_json_string(input, true, false, &LineEnding::Cr, 2).unwrap();
    assert_eq!(out, "{\r  \"a\": 2,\r  \"b\": \"x\\ny\"\r}\r");
    assert!(!out.contains('\n'));
}

#[test]
fn bare_cr_input_is_detected() {
    let out = sort_json_string("{\r\"b\": 1}", true, false, &LineEnding::SystemDefault, 1).unwrap();
    assert_eq!(out, "{\r \"b\": 1\r}\r");
}

#[test]
fn input_without_newline_uses_host_default() {
    let out = sort_json_string("[1]", true, false, &LineEnding::SystemDefault, 1).unwrap();
    let nl = LineEnding::SystemDefault.as_str();
    assert_eq!(out, format!("[{nl} 1{nl}]{nl}"));
}

#[test]
fn line_ending_from_str() {
    assert!(matches!(LineEnding::from_str("CR"), Ok(LineEnding::Cr)));
    assert!(matches!(LineEnding::from_str("lf"), Ok(LineEnding::Lf)));
    assert!(matches!(LineEnding::from_str("CrLf"), Ok(LineEnding::CrLf)));
    assert!(matches!(LineEnding::from_str("unix"), Ok(LineEnding::SystemDefault)));
    assert!(matches!(LineEnding::from_str(""), Ok(LineEnding::SystemDefault)));
}

#[test]
fn line_ending_as_str_and_parse_str() {
    assert_eq!(LineEnding::Cr.as_str(), "\r");
    assert_eq!(LineEnding::Lf.as_str(), "\n");
    assert_eq!(LineEnding::CrLf.as_str(), "\r\n");
    let host = LineEnding::SystemDefault.as_str();
    assert!(host == "\n" || host == "\r\n");
    assert_eq!(LineEnding::parse_str("a\r\nb\nc"), LineEnding::CrLf);
    assert_eq!(LineEnding::parse_str("a\nb\rc"), LineEnding::Lf);
    assert_eq!(LineEnding::parse_str("a\rb"), LineEnding::Cr);
    assert_eq!(LineEnding::parse_str("ab"), LineEnding::SystemDefault);
}

#[test]
fn line_ending_resolve() {
    assert_eq!(LineEnding::Cr.resolve("a\r\n", LineEnding::Lf), LineEnding::Cr);
    assert_eq!(LineEnding::SystemDefault.resolve("a\r\n", LineEnding::Lf), LineEnding::CrLf);
    assert_eq!(LineEnding::SystemDefault.resolve("a", LineEnding::CrLf), LineEnding::CrLf);
}

#[test]
fn directory_and_its_file_give_one_entry() {
    let cs = vec![
        candidate("dir/fileA.json", Some("/w/dir/fileA.json")),
        candidate("dir/fileB.json", Some("/w/dir/fileB.json")),
        candidate("dir/fileA.json", Some("/w/dir/fileA.json")),
        candidate("./dir/../dir/fileA.json", Some("/w/dir/fileA.json")),
    ];
    let out = collect_sortables(cs);
    let paths: Vec<&str> = out.iter().map(|c| c.path.as_str()).collect();
    assert_eq!(paths, vec!["dir/fileA.json", "dir/fileB.json"]);
}

#[test]
fn missing_files_are_kept_and_never_merged() {
    let cs = vec![
        candidate("gone.json", None),
        candidate("gone.json", None),
        candidate("a.json", Some("/w/a.json")),
    ];
    let out = collect_sortables(cs);
    let paths: Vec<&str> = out.iter().map(|c| c.path.as_str()).collect();
    assert_eq!(paths, vec!["gone.json", "gone.json", "a.json"]);
}

#[test]
fn ignored_names_are_dropped() {
    let cs = vec![
        candidate("node_modules/x/a.json", Some("/w/node_modules/x/a.json")),
        candidate("package.json", Some("/w/package.json")),
        candidate("my-package-lock.json.bak", Some("/w/my-package-lock.json.bak")),
        candidate(".svn/entries", Some("/w/.svn/entries")),
        candidate("data.json", Some("/w/data.json")),
    ];
    let out = collect_sortables(cs);
    let paths: Vec<&str> = out.iter().map(|c| c.path.as_str()).collect();
    assert_eq!(paths, vec!["data.json"]);
}

#[test]
fn results_are_counted() {
    let rs = vec![
        SortResult { path: "a".to_string(), error: None },
        SortResult { path: "b".to_string(), error: Some(JsonError::NotFound) },
        SortResult { path: "c".to_string(), error: Some(JsonError::ReadError) },
        SortResult { path: "d".to_string(), error: None },
    ];
    assert!(rs[0].success());
    assert!(!rs[1].success());
    assert_eq!(count_results(&rs), (2, 2));
    assert_eq!(count_results(&Vec::new()), (0, 0));
}

#[test]
fn report_label_inside_working_directory() {
    let full = Some("/home/u/proj/test1/file1.json".to_string());
    let current = Some("/home/u/proj".to_string());
    assert_eq!(relative_label(&full, &current, "test1/file1.json"), "./test1/file1.json");
}

#[test]
fn report_label_without_canonical_path() {
    assert_eq!(relative_label(&None, &Some("/w".to_string()), "./gone.json"), "./gone.json");
    assert_eq!(relative_label(&None, &None, "gone.json"), "./gone.json");
    assert_eq!(relative_label(&None, &None, "././x.json"), "././x.json");
}

#[test]
fn remove_all_takes_every_occurrence() {
    assert_eq!(remove_all("/a/b/a/b", "/a"), "/b/b");
    assert_eq!(remove_all("aaa", "aa"), "a");
    assert_eq!(remove_all("abc", ""), "abc");
    assert_eq!(remove_all("", "x"), "");
}

#[test]
fn default_newline_follows_the_separator() {
    assert_eq!(default_for_separator('\\'), LineEnding::CrLf);
    assert_eq!(default_for_separator('/'), LineEnding::Lf);
}

#[test]
fn cr_output_is_lf_output_with_cr() {
    let input = "{\r\n  \"b\": [1, {\"d\": \"x\"}],\r\n  \"a\": 2\r\n}\r\n";
    let lf = sort_json_string(input, false, true, &LineEnding::Lf, 1).unwrap();
    let cr = sort_json_string(input, false, true, &LineEnding::Cr, 1).unwrap();
    assert_eq!(cr, lf.replace('\n', "\r"));
    assert!(cr.ends_with('\r'));
}
