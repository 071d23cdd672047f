//! The builtins that walk, hash, match and read documents.
use ix::lang::eval::eval_str;
use ix::lang::frames::{FloatAsk, Num};
use ix::lang::host::{fixed_places, trim_fixed, trim_scientific, FileType, FloatAnswer, Host};

fn float_of(n: Num) -> f64 {
    match n {
        Num::Int(i) => i as f64,
        Num::Float(bits) => f64::from_bits(bits),
    }
}

fn shown(x: f64) -> String {
    if x == 0.0 {
        return "0".to_owned();
    }
    let scientific = format!("{x:.5e}");
    match fixed_places(&scientific) {
        Some(places) => trim_fixed(&format!("{x:.places$}")),
        None => trim_scientific(&scientific),
    }
}

fn answered(ask: FloatAsk) -> FloatAnswer {
    let float = |x: f64| FloatAnswer::Float(x.to_bits());
    match ask {
        FloatAsk::Add(a, b) => float(float_of(a) + float_of(b)),
        FloatAsk::Sub(a, b) => float(float_of(a) - float_of(b)),
        FloatAsk::Mul(a, b) => float(float_of(a) * float_of(b)),
        FloatAsk::Div(a, b) => float(float_of(a) / float_of(b)),
        FloatAsk::Floor(a) => FloatAnswer::Int(float_of(a).floor() as i64),
        FloatAsk::Ceil(a) => FloatAnswer::Int(float_of(a).ceil() as i64),
        FloatAsk::Equal(a, b) => FloatAnswer::Bool(float_of(a) == float_of(b)),
        FloatAsk::Order(a, b) => FloatAnswer::Int(if float_of(a) < float_of(b) {
            -1
        } else if float_of(a) > float_of(b) {
            1
        } else {
            0
        }),
        FloatAsk::Show(bits) => FloatAnswer::Text(shown(f64::from_bits(bits))),
        FloatAsk::Json(bits) => {
            let s = format!("{}", f64::from_bits(bits));
            FloatAnswer::Text(if s.contains('.') { s } else { s + ".0" })
        }
    }
}

/// A host whose files and environment are in memory.
struct Memory;

impl Host for Memory {
    fn read_file(&self, path: &str) -> Result<String, String> {
        match path {
            "/m/lib.nix" => Ok("{ id = x: x; n = 7; }".to_owned()),
            "/m/dir/default.nix" => Ok("import /m/lib.nix".to_owned()),
            _ => Err(format!("path '{path}' does not exist")),
        }
    }

    fn read_dir(&self, _path: &str) -> Result<Vec<(String, FileType)>, String> {
        Ok(vec![("a".to_owned(), FileType::Regular)])
    }

    fn path_exists(&self, path: &str) -> bool {
        self.read_file(path).is_ok()
    }

    fn file_type(&self, path: &str) -> Result<FileType, String> {
        match path {
            "/m/dir" => Ok(FileType::Directory),
            p if self.path_exists(p) => Ok(FileType::Regular),
            p => Err(format!("path '{p}' does not exist")),
        }
    }

    fn env(&self, name: &str) -> String {
        if name == "IXE_TEST_VAR" {
            "foo".to_owned()
        } else {
            String::new()
        }
    }

    fn float(&self, ask: FloatAsk) -> FloatAnswer {
        answered(ask)
    }

    fn number(&self, digits: &str) -> u64 {
        digits.parse::<f64>().unwrap_or(0.0).to_bits()
    }
}

/// Value renders as-is, errors as their debug form.
fn render(src: &str) -> String {
    match eval_str(src, &Memory) {
        Ok(v) => v,
        Err(e) => format!("{e:?}"),
    }
}

#[test]
fn generic_closure_closes_over_keys_breadth_first() {
    assert_eq!(
        render(
            "builtins.genericClosure {
               startSet = [ { key = 1; } ];
               operator = x: if x.key >= 4 then [ ] else [ { key = x.key + 1; } ];
             }"
        ),
        "[ { key = 1; } { key = 2; } { key = 3; } { key = 4; } ]"
    );
    // A key already closed over is skipped and its operator never runs,
    // which is what stops a cyclic graph from diverging.
    assert_eq!(
        render(
            "builtins.genericClosure {
               startSet = [ { key = 1; } { key = 1; } ];
               operator = x: [ { key = 1; } ];
             }"
        ),
        "[ { key = 1; } ]"
    );
}

#[test]
fn generic_closure_argument_errors_match_cpp_classes() {
    // An empty startSet returns before `operator` is looked at, so a
    // missing operator is not an error there.
    assert_eq!(
        render("builtins.genericClosure { startSet = [ ]; }"),
        "[ ]"
    );
    assert_eq!(
        render("builtins.genericClosure { operator = x: [ ]; }"),
        "Eval(Eval, \"attribute 'startSet' missing\")"
    );
    assert_eq!(
        render("builtins.genericClosure { startSet = [ { key = 1; } ]; }"),
        "Eval(Eval, \"attribute 'operator' missing\")"
    );
    assert_eq!(
        render("builtins.genericClosure { startSet = [ { nokey = 1; } ]; operator = x: [ ]; }"),
        "Eval(Eval, \"attribute 'key' missing\")"
    );
    assert_eq!(
        render(
            "builtins.genericClosure {
               startSet = [ { key = 1; } { key = \"s\"; } ];
               operator = x: [ ];
             }"
        ),
        "Eval(Eval, \"cannot compare a string with an integer\")"
    );
    // Two set-valued keys: the first insert compares against nothing and
    // succeeds, so the failure needs two.
    assert_eq!(
        render(
            "builtins.genericClosure {
               startSet = [ { key = { }; } { key = { }; } ];
               operator = x: [ ];
             }"
        ),
        "Eval(Eval, \"cannot compare a set with a set; values of that type are incomparable\")"
    );
}

#[test]
fn get_env_reads_the_environment_and_defaults_to_empty() {
    assert_eq!(render("builtins.getEnv \"IXE_TEST_VAR\""), "\"foo\"");
    assert_eq!(render("builtins.getEnv \"IXE_NO_SUCH_VAR\""), "\"\"");
}

#[test]
fn zip_attrs_with_groups_by_name_and_stays_lazy() {
    assert_eq!(
        render("builtins.zipAttrsWith (n: vs: { inherit n vs; }) [ { a = 1; b = 2; } { a = 3; } ]"),
        "{ a = { n = \"a\"; vs = [ 1 3 ]; }; b = { n = \"b\"; vs = [ 2 ]; }; }"
    );
    // Each entry is an unapplied `f name values`, so an
    // entry nobody reads never calls `f`.
    assert_eq!(
        render("(builtins.zipAttrsWith (n: v: throw n) [ { a = 1; b = 2; } ]).a or \"untouched\""),
        "Eval(Thrown, \"a\")"
    );
    assert_eq!(
        render("builtins.attrNames (builtins.zipAttrsWith (n: v: throw n) [ { a = 1; b = 2; } ])"),
        "[ \"a\" \"b\" ]"
    );
}

#[test]
fn hash_string_matches_the_corpus_digests() {
    // The empty string, in all four algorithms.
    assert_eq!(
        render("builtins.hashString \"md5\" \"\""),
        "\"d41d8cd98f00b204e9800998ecf8427e\""
    );
    assert_eq!(
        render("builtins.hashString \"sha1\" \"\""),
        "\"da39a3ee5e6b4b0d3255bfef95601890afd80709\""
    );
    assert_eq!(
        render("builtins.hashString \"sha256\" \"text 1\""),
        "\"900a4469df00ccbfd0c145c6d1e4b7953dd0afafadd7534e3a4019e8d38fc663\""
    );
    assert_eq!(
        render("builtins.hashString \"sha512\" \"\""),
        "\"cf83e1357eefb8bdf1542850d66d8007d620e4050b5715dc83f4a921d36ce9ce47d0d13c5d85f2b0ff8318d2877eec2f63b931bd47417a81a538327af927da3e\""
    );
    assert_eq!(
        render("builtins.hashString \"sha3\" \"\""),
        "Eval(Eval, \"unknown hash algorithm 'sha3'\")"
    );
}

#[test]
fn match_is_anchored_posix_ere() {
    // regex_match, not regex_search: a pattern covering part of the
    // subject does not match.
    assert_eq!(render("builtins.match \"fo*\" \"foobar\""), "null");
    assert_eq!(render("builtins.match \"foobar\" \"foobar\""), "[ ]");
    assert_eq!(
        render("builtins.match \"(.*)\\\\.nix\" \"foobar.nix\""),
        "[ \"foobar\" ]"
    );
    // POSIX bracket classes, which an ECMAScript engine reads as a set
    // of punctuation instead.
    assert_eq!(
        render("builtins.match \"[[:space:]]+([[:upper:]]+)[[:space:]]+\" \"  FOO   \""),
        "[ \"FOO\" ]"
    );
    // An optional group that did not participate is null, not "".
    assert_eq!(
        render("builtins.match \"((.*)/)?([^/]*)\\\\.(nix|cc)\" \"foobar.cc\""),
        "[ null null \"foobar\" \"cc\" ]"
    );
    // A period spans a newline in POSIX, so this matches across lines.
    assert_eq!(
        render("builtins.match \".*b.*\" \"a\\nb\\nc\""),
        "[ ]"
    );
}

#[test]
fn split_interleaves_runs_and_group_lists() {
    assert_eq!(
        render("builtins.split \"(a)b\" \"abc\""),
        "[ \"\" [ \"a\" ] \"c\" ]"
    );
    assert_eq!(
        render("builtins.split \"(a)|(c)\" \"abc\""),
        "[ \"\" [ \"a\" null ] \"b\" [ null \"c\" ] \"\" ]"
    );
    // No match at all hands the subject back as one element, not three.
    assert_eq!(render("builtins.split \"fo+\" \"f\""), "[ \"f\" ]");
    assert_eq!(
        render("builtins.split \"fo*\" \"foobar\""),
        "[ \"\" [ ] \"bar\" ]"
    );
}

#[test]
fn from_json_keeps_the_int_float_distinction() {
    assert_eq!(render("builtins.fromJSON \"1\""), "1");
    assert_eq!(render("builtins.fromJSON \"1.0\""), "1");
    assert_eq!(render("builtins.typeOf (builtins.fromJSON \"1\")"), "\"int\"");
    assert_eq!(
        render("builtins.typeOf (builtins.fromJSON \"1.0\")"),
        "\"float\""
    );
    assert_eq!(
        render("builtins.fromJSON \"{\\\"x\\\": [1, 2], \\\"y\\\": null}\""),
        "{ x = [ 1 2 ]; y = null; }"
    );
    assert_eq!(
        render("builtins.fromJSON \"18446744073709551615\""),
        "Eval(Eval, \"unsigned json number 18446744073709551615 outside of Nix integer range\")"
    );
    // A NUL cannot live in a Nix string, in a value or in a key.
    assert_eq!(
        render("builtins.fromJSON ''\"a\\u0000b\"''"),
        "Eval(Eval, \"input string 'a\u{2400}b' cannot be represented as Nix string because it contains null bytes\")"
    );
}

#[test]
fn from_toml_builds_tables_and_refuses_what_cpp_refuses() {
    assert_eq!(
        render("builtins.fromTOML ''\n  x=1\n  s=\"a\"\n  [table]\n  y=2\n''"),
        "{ s = \"a\"; table = { y = 2; }; x = 1; }"
    );
    assert_eq!(
        render("builtins.fromTOML ''arr = [ 1, 2, 3 ]''"),
        "{ arr = [ 1 2 3 ]; }"
    );
    assert_eq!(
        render("builtins.fromTOML ''k = \"a\\u0000b\"''"),
        "Eval(Eval, \"while parsing TOML: error: input string 'a\u{2400}b' cannot be represented as Nix string because it contains null bytes\")"
    );
    // A setting would decide whether a timestamp becomes an attrset or is
    // refused, and there are no settings here.
    assert_eq!(
        render("builtins.fromTOML ''d = 1979-05-27T07:32:00''"),
        "Unimplemented(\"builtins.fromTOML timestamps (the parse-toml-timestamps feature does not reach this backend)\")"
    );
}

#[test]
fn to_json_matches_nlohmann_dump() {
    assert_eq!(
        render("builtins.toJSON { a = 123; b = -456; c = \"foo\"; }"),
        r#""{\"a\":123,\"b\":-456,\"c\":\"foo\"}""#
    );
    // Names come out in lexicographic order whatever order they were
    // written in, and there is no whitespace anywhere.
    assert_eq!(
        render("builtins.toJSON { z = 1; a = 2; }"),
        r#""{\"a\":2,\"z\":1}""#
    );
    assert_eq!(
        render("builtins.toJSON [ 1 [ \"b\" { } ] ]"),
        r#""[1,[\"b\",{}]]""#
    );
    assert_eq!(render("builtins.toJSON 1.44"), "\"1.44\"");
    // An integral float keeps a decimal point, so it reads back a float.
    assert_eq!(render("builtins.toJSON 5.0"), "\"5.0\"");
    assert_eq!(render("builtins.toJSON null"), "\"null\"");
    // The escapes with a letter, plus \u00xx for the rest of C0.
    assert_eq!(
        render("builtins.toJSON \"a\\nb\\\"c\\td\""),
        r#""\"a\\nb\\\"c\\td\"""#
    );
    assert_eq!(
        render("builtins.toJSON (x: x)"),
        "Eval(Eval, \"cannot convert a function to JSON\")"
    );
}

#[test]
fn to_json_takes_a_set_through_its_to_string_or_out_path() {
    // tryAttrsToString: __toString wins over the object form, and is
    // called with the set itself.
    assert_eq!(
        render("builtins.toJSON { __toString = self: self.a; a = \"foo\"; }"),
        "\"\\\"foo\\\"\""
    );
    // A derivation is serialised through outPath.
    assert_eq!(
        render("builtins.toJSON { outPath = \"/nix/store/x\"; drvPath = \"ignored\"; }"),
        "\"\\\"/nix/store/x\\\"\""
    );
}

/// Every level of the walk counts against the call depth, so a value nested
/// past the limit is refused rather than serialised.
#[test]
fn to_json_refuses_a_value_deeper_than_max_call_depth() {
    let deep = "builtins.foldl' (tail: head: { inherit head tail; }) null (builtins.genList (x: x) 20000)";
    assert_eq!(
        render(&format!("builtins.toJSON ({deep})")),
        "Eval(Eval, \"stack overflow; max-call-depth exceeded\")"
    );
    // Just under the limit still serialises, so the cap is a cap and not
    // a blanket refusal.
    let shallow = "builtins.foldl' (tail: head: { inherit head tail; }) null (builtins.genList (x: x) 100)";
    assert!(render(&format!("builtins.toJSON ({shallow})")).starts_with('"'));
}

/// Integers outside the signed 64-bit range are a parse error of the document.
#[test]
fn from_toml_still_refuses_integers_past_the_nix_range() {
    for src in [
        "builtins.fromTOML ''attr = 9223372036854775808''",
        "builtins.fromTOML ''attr = -9223372036854775809''",
    ] {
        let got = render(src);
        assert!(
            got.starts_with("Eval(Eval, \"while parsing TOML:"),
            "expected a TOML parse refusal, got {got}"
        );
    }
}

/// An integer that does not fit is refused, not widened.
#[test]
fn from_json_refuses_integers_that_do_not_fit() {
    assert_eq!(render("builtins.fromJSON \"-9223372036854775808\""), "-9223372036854775808");
    assert_eq!(
        render("builtins.fromJSON \"-9223372036854775809\""),
        "Eval(Eval, \"json number -9223372036854775809 outside of Nix integer range\")",
    );
    assert_eq!(
        render("builtins.fromJSON \"18446744073709551616\""),
        "Eval(Eval, \"json number 18446744073709551616 outside of Nix integer range\")",
    );
    assert_eq!(
        render("builtins.fromJSON \"9223372036854775808\""),
        "Eval(Eval, \"unsigned json number 9223372036854775808 outside of Nix integer range\")",
    );
    assert_eq!(
        render("builtins.fromJSON \"1e999\""),
        "Eval(Eval, \"while decoding a JSON string: number out of range at line 1 column 5\")",
    );
    assert_eq!(render("builtins.typeOf (builtins.fromJSON \"1E2\")"), "\"float\"");
    assert_eq!(render("builtins.typeOf (builtins.fromJSON \"-0\")"), "\"float\"");
}

/// Digits are found wherever an integer stands, and nowhere else.
#[test]
fn wide_integers_are_told_from_what_looks_like_them() {
    assert_eq!(
        render("builtins.fromJSON ''{\"b\": [1, -2.5e3], \"a\": {\"z\": 99999999999999999999}}''"),
        "Eval(Eval, \"json number 99999999999999999999 outside of Nix integer range\")",
    );
    assert_eq!(
        render("builtins.fromJSON ''[\"99999999999999999999\", 1, \"a\\\"3\", true, -7]''"),
        "[ \"99999999999999999999\" 1 \"a\\\"3\" true -7 ]",
    );
    assert_eq!(
        render("builtins.fromJSON ''{\"a\": 99999999999999999999, \"a\": 1}''"),
        "{ a = 1; }",
    );
    assert_eq!(render("builtins.fromJSON \"99999999999999999999.0\""), "1e+20");
    assert_eq!(
        render("builtins.fromJSON ''{\"$serde_json::private::Number\": \"1\"}''"),
        "{ \"$serde_json::private::Number\" = \"1\"; }",
    );
}

/// A float that is no number equals every number.
#[test]
fn a_closure_takes_no_number_for_any() {
    let nan = "(1.0e308 * 10.0 - 1.0e308 * 10.0)";
    let keys = |start: &str| {
        render(&format!(
            "map (x: x.tag) (builtins.genericClosure {{ startSet = [ {start} ]; operator = x: [ ]; }})"
        ))
    };
    assert_eq!(
        keys(&format!("{{ key = {nan}; tag = 1; }} {{ key = 1; tag = 2; }}")),
        "[ 1 ]",
    );
    assert_eq!(
        keys(&format!(
            "{{ key = 1; tag = 1; }} {{ key = {nan}; tag = 2; }} {{ key = 2; tag = 3; }}"
        )),
        "[ 1 3 ]",
    );
}

/// Each key once, in the order in which the queue is worked off.
#[test]
fn a_closure_has_each_key_once() {
    assert_eq!(
        render(
            "map (x: x.key) (builtins.genericClosure { \
             startSet = [ { key = 5; } { key = 3; } { key = 5; } ]; \
             operator = x: if x.key > 6 then [ ] else [ { key = x.key + 1; } { key = 3; } ]; })"
        ),
        "[ 5 3 6 4 7 ]",
    );
    assert_eq!(
        render(
            "map (x: x.key) (builtins.genericClosure { \
             startSet = [ { key = 1; } { key = 1.0; } { key = 0.5; } ]; operator = x: [ ]; })"
        ),
        "[ 1 0.5 ]",
    );
}
