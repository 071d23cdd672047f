//! The expression language, from source text to printed value.
use ix::lang::builtins::{builtin_name, global_index, BUILTINS};
use ix::lang::compile::compile_source;
use ix::lang::eval::{
    drive, eval_str, eval_str_at, outcome, IXE_ERR_ASSERT, IXE_ERR_EVAL, IXE_ERR_PARSE,
    IXE_ERR_THROWN, IXE_ERR_UNIMPLEMENTED, IXE_OK,
};
use ix::lang::frames::{FloatAsk, Num};
use ix::lang::heap::Value;
use ix::lang::host::{
    fixed_places, import_target_of, trim_fixed, trim_scientific, FileType, FloatAnswer, Host,
};
use ix::lang::strings::{compare_versions, normalize_path, Order};
use ix::lang::vm::Vm;

fn float_of(n: Num) -> f64 {
    match n {
        Num::Int(i) => i as f64,
        Num::Float(bits) => f64::from_bits(bits),
    }
}

fn shown(x: f64) -> String {
    if x == 0.0 {
        return "0".to_owned();
    }
    let scientific = format!("{x:.5e}");
    match fixed_places(&scientific) {
        Some(places) => trim_fixed(&format!("{x:.places$}")),
        None => trim_scientific(&scientific),
    }
}

fn answered(ask: FloatAsk) -> FloatAnswer {
    let float = |x: f64| FloatAnswer::Float(x.to_bits());
    match ask {
        FloatAsk::Add(a, b) => float(float_of(a) + float_of(b)),
        FloatAsk::Sub(a, b) => float(float_of(a) - float_of(b)),
        FloatAsk::Mul(a, b) => float(float_of(a) * float_of(b)),
        FloatAsk::Div(a, b) => float(float_of(a) / float_of(b)),
        FloatAsk::Floor(a) => FloatAnswer::Int(float_of(a).floor() as i64),
        FloatAsk::Ceil(a) => FloatAnswer::Int(float_of(a).ceil() as i64),
        FloatAsk::Equal(a, b) => FloatAnswer::Bool(float_of(a) == float_of(b)),
        FloatAsk::Order(a, b) => FloatAnswer::Int(if float_of(a) < float_of(b) {
            -1
        } else if float_of(a) > float_of(b) {
            1
        } else {
            0
        }),
        FloatAsk::Show(bits) => FloatAnswer::Text(shown(f64::from_bits(bits))),
        FloatAsk::Json(bits) => {
            let s = format!("{}", f64::from_bits(bits));
            FloatAnswer::Text(if s.contains('.') { s } else { s + ".0" })
        }
    }
}

/// A host whose files and environment are in memory.
struct Memory;

impl Host for Memory {
    fn read_file(&self, path: &str) -> Result<String, String> {
        match path {
            "/m/lib.nix" => Ok("{ id = x: x; n = 7; }".to_owned()),
            "/m/dir/default.nix" => Ok("import /m/lib.nix".to_owned()),
            _ => Err(format!("path '{path}' does not exist")),
        }
    }

    fn read_dir(&self, _path: &str) -> Result<Vec<(String, FileType)>, String> {
        Ok(vec![("a".to_owned(), FileType::Regular)])
    }

    fn path_exists(&self, path: &str) -> bool {
        self.read_file(path).is_ok()
    }

    fn file_type(&self, path: &str) -> Result<FileType, String> {
        match path {
            "/m/dir" => Ok(FileType::Directory),
            p if self.path_exists(p) => Ok(FileType::Regular),
            p => Err(format!("path '{p}' does not exist")),
        }
    }

    fn env(&self, name: &str) -> String {
        if name == "IXE_TEST_VAR" {
            "foo".to_owned()
        } else {
            String::new()
        }
    }

    fn float(&self, ask: FloatAsk) -> FloatAnswer {
        answered(ask)
    }

    fn number(&self, digits: &str) -> u64 {
        digits.parse::<f64>().unwrap_or(0.0).to_bits()
    }
}

/// Value renders as-is, errors as their debug form.
fn render(src: &str) -> String {
    match eval_str(src, &Memory) {
        Ok(v) => v,
        Err(e) => format!("{e:?}"),
    }
}

#[test]
fn arithmetic() {
    assert_eq!(render("1 + 2"), "3");
    assert_eq!(render("2 * 3 + 4"), "10");
    assert_eq!(render("(1 + 2) * -3"), "-9");
    assert_eq!(render("7 / 2"), "3");
    assert_eq!(render("7.0 / 2"), "3.5");
    assert_eq!(render("1.0 + 2"), "3");
}

#[test]
fn bindings_and_functions() {
    assert_eq!(render("let a = 1; b = a + 1; in a + b"), "3");
    assert_eq!(render("let f = x: x * 2; in f 21"), "42");
    assert_eq!(render("(x: y: x + y) 1 2"), "3");
    assert_eq!(render("({ a, b ? 10 }: a + b) { a = 1; }"), "11");
    assert_eq!(render("({ a, ... } @ all: a + all.b) { a = 1; b = 2; }"), "3");
    assert_eq!(render("let f = n: if n == 0 then 1 else n * f (n - 1); in f 5"), "120");
}

#[test]
fn data_structures() {
    assert_eq!(render("[ 1 2 3 ]"), "[ 1 2 3 ]");
    assert_eq!(render("{ b = 2; a = 1; }"), "{ a = 1; b = 2; }");
    assert_eq!(render("{ a = 1; b = 2; }.b"), "2");
    assert_eq!(render("{ a = { b = 42; }; }.a.b"), "42");
    assert_eq!(render("{ a = 1; }.b or 7"), "7");
    assert_eq!(render("{ a = 1; } ? a"), "true");
    assert_eq!(render("rec { a = 1; b = a + 1; }.b"), "2");
    assert_eq!(render("[ 1 ] ++ [ 2 ]"), "[ 1 2 ]");
    assert_eq!(render("{ a = 1; } // { a = 2; b = 3; }"), "{ a = 2; b = 3; }"
    );
}

#[test]
fn scoping() {
    assert_eq!(render("with { a = 1; }; a"), "1");
    assert_eq!(render("let a = 2; in with { a = 1; }; a"), "2");
    assert_eq!(render("with { a = 1; }; with { a = 2; }; a"), "2");
}

#[test]
fn strings() {
    assert_eq!(render("\"abc\""), "\"abc\"");
    assert_eq!(render("let x = \"b\"; in \"a${x}c\""), "\"abc\"");
    assert_eq!(render("\"a\" + \"b\""), "\"ab\"");
    assert_eq!(render("toString 42"), "\"42\"");
    assert_eq!(render("toString [ 1 2 ]"), "\"1 2\"");
}

#[test]
fn logic_and_comparison() {
    assert_eq!(render("true && false"), "false");
    assert_eq!(render("false || true"), "true");
    assert_eq!(render("false -> false"), "true");
    assert_eq!(render("1 < 2"), "true");
    assert_eq!(render("\"a\" < \"b\""), "true");
    assert_eq!(render("[ 1 2 ] == [ 1 2 ]"), "true");
    assert_eq!(render("{ a = 1; } == { a = 1; }"), "true");
    assert_eq!(render("assert 1 == 1; 42"), "42");
}

#[test]
fn laziness() {
    assert_eq!(render("let boom = throw \"x\"; in 1"), "1");
    assert_eq!(render("[ (throw \"x\") ] == [ ]"), "false");
    assert_eq!(render("{ a = throw \"x\"; } ? a"), "true");
}

#[test]
fn global_spelling_mirrors_cpp_registration() {
    // Registered "__length": bare `length` is undefined, __length and
    // builtins.length work. Registered "map": bare map works.
    assert_eq!(render("__length [ 1 2 ]"), "2");
    assert_eq!(render("builtins.length [ 1 2 ]"), "2");
    assert_eq!(render("length [ 1 2 ]"), "Eval(Eval, \"undefined variable 'length'\")");
    assert_eq!(render("map (x: x + 1) [ 1 2 ]"), "[ 2 3 ]");
}

#[test]
fn builtins_batch2() {
    assert_eq!(render("builtins.attrNames { b = 1; a = 2; }"), "[ \"a\" \"b\" ]");
    assert_eq!(render("builtins.foldl' (a: b: a + b) 0 [ 1 2 3 ]"), "6");
    assert_eq!(render("builtins.tryEval (throw \"x\")"), "{ success = false; value = false; }");
    assert_eq!(render("builtins.tryEval 42"), "{ success = true; value = 42; }");
    assert_eq!(render("builtins.substring 1 2 \"abcd\""), "\"bc\"");
    assert_eq!(render("builtins.replaceStrings [ \"o\" ] [ \"0\" ] \"foobar\""), "\"f00bar\"");
    assert_eq!(render("builtins.compareVersions \"1.0\" \"1.0.1\""), "-1");
    assert_eq!(render("builtins.compareVersions \"2.3pre1\" \"2.3\""), "-1");
    assert_eq!(render("builtins.sort builtins.lessThan [ 3 1 2 ]"), "[ 1 2 3 ]");
    assert_eq!(render("builtins.typeOf 1.5"), "\"float\"");
    assert_eq!(render("builtins.functionArgs ({ a, b ? 1 }: a)"), "{ a = false; b = true; }");
}

/// Whatever the comparison says, every element comes out once.
#[test]
fn a_sort_keeps_every_element() {
    assert_eq!(render("builtins.sort builtins.lessThan [ 2 1 2 1 ]"), "[ 1 1 2 2 ]");
    assert_eq!(
        render("builtins.foldl' (a: b: a + b) 0 (builtins.sort (a: b: true) [ 1 10 100 1000 ])"),
        "1111",
    );
    assert_eq!(render("builtins.sort (a: b: false) [ 3 1 2 ]"), "[ 3 1 2 ]");
    assert_eq!(render("builtins.sort builtins.lessThan [ ]"), "[ ]");
}

/// 100k levels of nesting, which is far past what any host stack holds.
/// Building, deep-forcing, printing and comparing each walk every level,
/// and none of them may recurse per level. Runs on a default 2 MiB test
/// thread.
#[test]
fn deep_values_never_reach_the_host_stack() {
    const N: usize = 100_000;
    let build = "let f = n: if n == 0 then [ ] else [ (f (n - 1)) ]; in ";
    assert_eq!(
        render(&format!("{build} builtins.deepSeq (f {N}) \"ok\"")),
        "\"ok\""
    );
    // "[ ]" at the bottom, four more characters per level above it.
    let printed = render(&format!("{build} f {N}"));
    assert_eq!(printed.len(), 3 + 4 * N);
    assert!(printed.starts_with("[ [ [ "));
    assert_eq!(render(&format!("{build} (f {N}) == (f {N})")), "true");
    assert_eq!(render(&format!("{build} (f {N}) == (f {})", N - 1)), "false");
    assert_eq!(render(&format!("{build} (f {N}) < (f {})", N - 1)), "false");
}

/// The other unbounded shape: a call chain rather than a value nest. The
/// fold is 100k applications in one builtin, and `f` is 100k pending
/// additions each waiting on the next call.
#[test]
fn long_call_chains_never_reach_the_host_stack() {
    assert_eq!(
        render("builtins.foldl' (a: b: a + b) 0 (builtins.genList (i: i) 100000)"),
        "4999950000"
    );
    assert_eq!(
        render("let f = n: if n == 0 then 0 else 1 + f (n - 1); in f 100000"),
        "100000"
    );
}

/// The deep walk carries a seen-set, so a cyclic attrset bottoms out.
#[test]
fn deep_seq_terminates_on_a_self_referential_attrset() {
    assert_eq!(
        render("builtins.deepSeq (let as = { x = 123; y = as; }; in as) 456"),
        "456"
    );
}

/// deepSeq finishes the first argument before it looks at the second, so
/// a throw buried in the deep walk beats a throw sitting in the result.
#[test]
fn deep_seq_reports_the_deep_failure_first() {
    assert_eq!(
        render("builtins.deepSeq [ (throw \"deep\") ] (throw \"result\")"),
        "Eval(Thrown, \"deep\")"
    );
}

/// The `to` side of replaceStrings stays lazy: it only forces the
/// replacements it actually uses.
#[test]
fn replace_strings_leaves_unused_replacements_unforced() {
    assert_eq!(
        render("builtins.replaceStrings [ \"oo\" \"XX\" ] [ \"u\" (throw \"unreachable\") ] \"foobar\""),
        "\"fubar\""
    );
}

/// Two bookends of equality: the same cell equals itself whatever it
/// holds, and functions equal nothing. Only both together give `f == f`
/// false and `[ f ] == [ f ]` true, and the second needs the compiler to
/// pass a bare variable as its own slot rather than a fresh thunk.
#[test]
fn function_equality_follows_cell_identity() {
    assert_eq!(render("let f = x: x; in f == f"), "false");
    assert_eq!(render("let f = x: x; in [ f ] == [ f ]"), "true");
    assert_eq!(render("let f = x: x; in { a = f; } == { a = f; }"), "true");
    assert_eq!(render("(x: x) == (x: x)"), "false");
    // Distinct cells holding equal data are still equal.
    assert_eq!(render("let a = [ 1 ]; b = [ 1 ]; in a == b"), "true");
}

/// The elements of a mapped list or set are applications not made yet, so
/// the function runs only when an element is forced.
#[test]
fn mapped_functions_do_not_run_until_forced() {
    assert_eq!(render("builtins.attrNames (builtins.mapAttrs throw { a = 1; })"), "[ \"a\" ]");
    assert_eq!(render("builtins.length (builtins.map throw [ 1 2 ])"), "2");
    assert_eq!(render("builtins.length (builtins.genList throw 3)"), "3");
    assert_eq!(render("builtins.mapAttrs (n: v: n + v) { a = \"1\"; }"), "{ a = \"a1\"; }");
}

/// Sets merge attrpaths that share a prefix, and merges two
/// bindings of one name when both values are set literals. The `rec` of
/// the FIRST set covers whatever is merged in later (NixOS/nix#9020).
#[test]
fn attrpaths_and_set_literals_merge() {
    assert_eq!(render("{ a.b = 1; a.c = 2; }"), "{ a = { b = 1; c = 2; }; }");
    assert_eq!(render("{ a = { b = 1; }; a = { c = 2; }; }"), "{ a = { b = 1; c = 2; }; }");
    assert_eq!(render("{ a.b.c = 1; }.a.b.c"), "1");
    assert_eq!(render("(let a.b = 1; in a).b"), "1");
    assert_eq!(
        render("{ a = rec { b = c + 1; d = 2; }; a.c = d + 3; }.a.b"),
        "6"
    );
    // Two non-set values under one name is still a redefinition.
    assert_eq!(
        render("{ a = 1; a = 2; }"),
        "Parse(\"attribute 'a' already defined\")"
    );
}

/// `let { body = …; }`: the syntax before `let ... in`, defined as the
/// `body` attribute of the equivalent rec set.
#[test]
fn legacy_let_is_the_body_of_a_rec_set() {
    assert_eq!(render("let { body = a; a = 1; }"), "1");
    assert_eq!(render("let { body = x + y; x = 1; y = x + 1; }"), "3");
}

/// `inherit x` in a rec scope takes the OUTER x; joining the frame it is
/// being added to would make it recurse on itself.
#[test]
fn rec_inherit_resolves_outside_its_own_frame() {
    assert_eq!(render("let x = 1; in (rec { inherit x; y = x + 1; }).y"), "2");
    assert_eq!(render("let x = 1; in { inherit x; }.x"), "1");
}

/// The host answers path questions; the machine never reads a file.
#[test]
fn the_vm_reads_files_only_through_the_host() {
    fn run(src: &str) -> String {
        let Ok(module) = compile_source(src, "/m") else {
            return "compile failed".to_owned();
        };
        let mut vm = Vm::new();
        vm.start_module(module);
        let v = match drive(&mut vm, &Memory) {
            Ok(v) => v,
            Err(e) => return format!("{e:?}"),
        };
        vm.start_print(v);
        match drive(&mut vm, &Memory) {
            Ok(Value::Str(s)) => vm.heap.text(s).into_iter().collect(),
            other => format!("{other:?}"),
        }
    }

    assert_eq!(run("(import /m/lib.nix).n"), "7");
    assert_eq!(run("(import /m/lib.nix).id 1"), "1");
    // A directory imports its default.nix, and the imported file's own
    // relative paths resolve against the RESOLVED file's directory.
    assert_eq!(run("(import /m/dir).n"), "7");
    assert_eq!(run("builtins.pathExists /m/lib.nix"), "true");
    assert_eq!(run("builtins.pathExists /m/nope.nix"), "false");
    assert_eq!(run("builtins.readFileType /m/dir"), "\"directory\"");
    assert_eq!(run("builtins.attrNames (builtins.readDir /m)"), "[ \"a\" ]");
    // One compile per file however many times it is imported.
    assert_eq!(
        run("let a = import /m/lib.nix; b = import /m/lib.nix; in a.n + b.n"),
        "14"
    );
}

/// foldl' is strict in the accumulator it produces, not the one it is
/// handed: the machine's argument forcing is per-argument for exactly
/// this, since `foldl'` forces its function and its list but not its nul.
#[test]
fn foldl_strict_leaves_the_initial_accumulator_alone() {
    assert_eq!(
        render("builtins.foldl' (_: x: x) (throw \"never\") [ 1 42 ]"),
        "42"
    );
    // Nothing consumed it, so an empty list hands the thunk straight back
    // and the throw surfaces where the value is finally wanted.
    assert_eq!(
        render("builtins.foldl' (_: x: x) (throw \"never\") [ ]"),
        "Eval(Thrown, \"never\")"
    );
    assert_eq!(render("builtins.foldl' (a: b: a + b) 0 [ 1 2 3 ]"), "6");
}

/// `path + string` stays canonical, `string + path` does not: only the
/// path-valued side is normalised.
#[test]
fn path_concatenation_normalises_only_on_the_path_side() {
    assert_eq!(render("toString (/foo/bar + \"/../xyzzy/.\" + \"/a.txt\")"), "\"/foo/xyzzy/a.txt\"");
    assert_eq!(render("\"/../foo\" + toString /x/y"), "\"/../foo/x/y\"");
    assert_eq!(render("toString (/a/b + \"/c\")"), "\"/a/b/c\"");
}

#[test]
fn infinite_recursion_detected() {
    assert_eq!(
        render("let a = a; in a"),
        "Eval(Eval, \"infinite recursion encountered\")"
    );
}

fn fails(src: &str) -> (i32, String) {
    outcome(eval_str(src, &Memory))
}

#[test]
fn failures_are_classed_and_worded() {
    let eval = |src: &str, m: &str| assert_eq!(fails(src), (IXE_ERR_EVAL, m.to_owned()), "{src}");
    eval("x", "undefined variable 'x'");
    eval("1 / 0", "division by zero");
    eval("9223372036854775807 + 1", "integer overflow in adding 9223372036854775807 + 1");
    eval("{ a = 1; }.b", "attribute 'b' missing");
    eval("({ a }: a) { }", "function called without required argument 'a'");
    eval(
        "({ a }: a) { a = 1; b = 2; }",
        "function called with unexpected argument 'b'",
    );
    eval("if 1 then 2 else 3", "expected a Boolean but found an integer: 1");
    eval("builtins.length 1", "expected a list but found an integer");
    eval("builtins.head [ ]", "list index 0 is out of bounds");
    eval("[ 1 ] < [ \"a\" ]", "cannot compare an integer with a string");
    eval("\"${1}\"", "cannot coerce an integer to a string");
    eval("\"a\" + true", "cannot coerce a Boolean to a string");
    assert_eq!(render("\"a\" + 1"), "\"a1\"");
    assert_eq!(fails("throw \"x\""), (IXE_ERR_THROWN, "x".to_owned()));
    assert_eq!(fails("assert false; 1").0, IXE_ERR_ASSERT);
    assert_eq!(fails("1 +").0, IXE_ERR_PARSE);
    assert_eq!(fails("builtins.fetchurl \"x\"").0, IXE_ERR_UNIMPLEMENTED);
    assert_eq!(fails("1"), (IXE_OK, "1".to_owned()));
}

#[test]
fn only_some_failures_can_be_caught() {
    assert_eq!(
        render("(builtins.tryEval (assert false; 1)).success"),
        "false"
    );
    assert_eq!(
        render("builtins.tryEval (1 / 0)"),
        "Eval(Eval, \"division by zero\")"
    );
    // A failure is remembered by the binding it happened in.
    assert_eq!(
        render("let a = throw \"x\"; in [ (builtins.tryEval a).success (builtins.tryEval a).success ]"),
        "[ false false ]"
    );
}

#[test]
fn relative_paths_start_at_the_base_directory() {
    let printed = eval_str_at("toString ./a/../b", "/base", &Memory).unwrap();
    assert_eq!(printed, "\"/base/b\"");
}

#[test]
fn printed_strings_are_escaped() {
    assert_eq!(render("\"a\\n\\t\\\"\\\\\\${\""), "\"a\\n\\t\\\"\\\\\\${\"");
    assert_eq!(render("{ \"a b\" = 1; \"if\" = 2; c = x: x; }"), "{ \"a b\" = 1; c = <LAMBDA>; \"if\" = 2; }");
    assert_eq!(render("builtins.head"), "<PRIMOP>");
    assert_eq!(render("[ null true 1.5 /a ]"), "[ null true 1.5 /a ]");
}

#[test]
fn versions_split_and_compare() {
    assert_eq!(
        render("builtins.splitVersion \"1.2.3pre4\""),
        "[ \"1\" \"2\" \"3\" \"pre\" \"4\" ]"
    );
    assert_eq!(render("baseNameOf \"/a/b/\""), "\"b\"");
    assert_eq!(render("dirOf \"/a/b\""), "\"/a\"");
}

#[test]
fn sets_are_combined_by_name() {
    assert_eq!(
        render("builtins.intersectAttrs { a = 1; c = 1; } { a = 2; b = 2; }"),
        "{ a = 2; }"
    );
    assert_eq!(render("removeAttrs { a = 1; b = 2; } [ \"a\" \"z\" ]"), "{ b = 2; }");
    assert_eq!(
        render("builtins.listToAttrs [ { name = \"a\"; value = 1; } { name = \"a\"; value = 2; } ]"),
        "{ a = 1; }"
    );
    assert_eq!(
        render("builtins.groupBy (x: if x < 2 then \"s\" else \"l\") [ 1 2 3 ]"),
        "{ l = [ 2 3 ]; s = [ 1 ]; }"
    );
    assert_eq!(
        render("builtins.partition (x: x < 2) [ 1 2 3 ]"),
        "{ right = [ 1 ]; wrong = [ 2 3 ]; }"
    );
    assert_eq!(render("builtins.catAttrs \"a\" [ { a = 1; } { b = 2; } { a = 3; } ]"), "[ 1 3 ]");
}

#[test]
fn digits_are_trimmed() {
    assert_eq!(trim_fixed("3.50000"), "3.5");
    assert_eq!(trim_fixed("3.00000"), "3");
    assert_eq!(trim_fixed("100000"), "100000");
    assert_eq!(trim_scientific("1.50000e10"), "1.5e+10");
    assert_eq!(trim_scientific("2.00000e-7"), "2e-07");
    assert_eq!(render("1.5e10"), "1.5e+10");
}

#[test]
fn six_digits_choose_the_form_of_a_float() {
    assert_eq!(fixed_places("1.00000e-4"), Some(9));
    assert_eq!(fixed_places("1.00000e-5"), None);
    assert_eq!(fixed_places("9.99999e5"), Some(0));
    assert_eq!(fixed_places("1.00000e6"), None);
    assert_eq!(fixed_places("1.50000e0"), Some(5));
    assert_eq!(fixed_places("1.00000e10"), None);
    assert_eq!(fixed_places("1.00000e-10"), None);
    assert_eq!(fixed_places("NaN"), None);
    assert_eq!(fixed_places("1e"), None);
    assert_eq!(shown(0.00001), "1e-05");
    assert_eq!(shown(0.0001), "0.0001");
    assert_eq!(shown(999999.5), "1e+06");
    assert_eq!(shown(123456.0), "123456");
}

/// Digit runs compare by what they spell, however long they are.
#[test]
fn long_digit_runs_compare_by_value() {
    let order = |a: &str, b: &str| compare_versions(&a.chars().collect(), &b.chars().collect());
    assert_eq!(order("20000000000000000000", "3"), Order::Greater);
    assert_eq!(order("3", "20000000000000000000"), Order::Less);
    assert_eq!(order("20000000000000000000", "20000000000000000001"), Order::Less);
    assert_eq!(order("00020000000000000000000", "20000000000000000000"), Order::Equal);
    assert_eq!(order("1.07", "1.7"), Order::Equal);
    assert_eq!(order("20000000000000000000", "a"), Order::Greater);
}

/// Reflexive, the other way round when swapped, and transitive.
#[test]
fn versions_are_preordered() {
    let order = |a: &str, b: &str| compare_versions(&a.chars().collect(), &b.chars().collect());
    let ascending = ["1pre", "1", "1a", "1.1", "1.01", "2.3pre1", "2.3", "2.3a", "2.3.1", "10"];
    for (i, a) in ascending.iter().enumerate() {
        for (j, b) in ascending.iter().enumerate() {
            let same = a == b || (a.starts_with("1.") && b.starts_with("1."));
            let expected = if same {
                Order::Equal
            } else if i < j {
                Order::Less
            } else {
                Order::Greater
            };
            assert_eq!(order(a, b), expected, "{a} and {b}");
        }
    }
}

#[test]
fn a_normal_path_has_one_shape() {
    assert_eq!(normalize_path(""), "/");
    assert_eq!(normalize_path("a//b/./../c/"), "/a/c");
    assert_eq!(normalize_path("/../.."), "/");
    for (a, b) in [("/a/../b", "../c"), ("x/./y", "z"), ("..", ".."), ("", "q/")] {
        let r = normalize_path(a);
        assert_eq!(normalize_path(&r), r);
        assert_eq!(normalize_path(&format!("{a}/{b}")), normalize_path(&format!("{r}/{b}")));
    }
}

#[test]
fn a_name_stands_for_one_builtin() {
    for i in 0..BUILTINS {
        assert_eq!(global_index(builtin_name(i)), Some(i));
    }
    assert_eq!(global_index("noSuchBuiltin"), None);
}

#[test]
fn an_import_of_a_directory_reads_its_default() {
    assert_eq!(Memory.resolve_import("/m/dir"), Ok("/m/dir/default.nix".to_owned()));
    assert_eq!(Memory.resolve_import("/m/dir/"), Memory.file_type("/m/dir/").map(|kind| {
        import_target_of("/m/dir/", kind)
    }));
    assert_eq!(Memory.resolve_import("/m/lib.nix"), Ok("/m/lib.nix".to_owned()));
    assert_eq!(
        Memory.resolve_import("/m/nope.nix").err(),
        Memory.file_type("/m/nope.nix").err(),
    );
}

/// Elements of which neither is less than the other keep their order.
#[test]
fn a_sort_is_stable() {
    assert_eq!(
        render(
            "map (x: x.v) (builtins.sort (a: b: a.k < b.k) \
             [ { k = 2; v = 1; } { k = 1; v = 2; } { k = 2; v = 3; } { k = 1; v = 4; } ])"
        ),
        "[ 2 4 1 3 ]",
    );
}
