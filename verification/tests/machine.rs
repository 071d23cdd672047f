//! The machine and its scheduler.
use ix::lang::eval::eval_str;
use ix::lang::frames::FloatAsk;
use ix::lang::heap::Value;
use ix::lang::host::{FileType, FloatAnswer, Host};
use ix::lang::ir::{CodeUnit, Const, Module, Op};
use ix::lang::step::Step;
use ix::lang::vm::Vm;

/// Suspend, refuse to poll, answer, and watch the frame that was mid-unit
/// consume the answer as an ordinary operand.
#[test]
fn a_suspension_resumes_into_the_running_frame() -> Result<(), String> {
    // One unit that adds 40 to whatever is already on its stack.
    let module = Module {
        consts: vec![Const::Int(40)],
        symbols: Vec::new(),
        units: vec![CodeUnit {
            ops: vec![Op::Const(0), Op::Add, Op::Ret],
            param: None,
        }],
        entry: 0,
    };
    let mut vm = Vm::new();
    vm.start_module(module);

    let Step::Perform {
        domain,
        request,
        resume,
    } = vm.suspend_perform("test".to_owned(), b"ping".to_vec())
    else {
        return Err("expected a Perform suspension".to_owned());
    };
    assert_eq!(domain, "test");
    assert_eq!(request, b"ping".to_vec());

    if vm.poll().is_ok() {
        return Err("poll must refuse while an answer is owed".to_owned());
    }
    vm.resume(resume, Value::Int(2))
        .map_err(|_| "resume rejected a live token".to_owned())?;
    // Spending the token twice is refused rather than answering a wait
    // that no longer exists.
    if vm.resume(resume, Value::Int(2)).is_ok() {
        return Err("a spent token must not resume again".to_owned());
    }

    let Ok(Step::Done(Value::Int(n))) = vm.poll() else {
        return Err("expected the unit to finish".to_owned());
    };
    assert_eq!(n, 42);
    Ok(())
}

fn adder() -> Module {
    Module {
        consts: vec![Const::Int(40), Const::Int(2)],
        symbols: Vec::new(),
        units: vec![CodeUnit {
            ops: vec![Op::Const(0), Op::Const(1), Op::Add, Op::Ret],
            param: None,
        }],
        entry: 0,
    }
}

/// A token of an earlier suspension does not answer a later one.
#[test]
fn a_stale_token_is_refused() {
    let mut vm = Vm::new();
    vm.start_module(adder());
    let Step::Perform { resume: first, .. } = vm.suspend_perform("a".to_owned(), vec![]) else {
        panic!("expected a suspension");
    };
    assert!(vm.resume(first, Value::Int(1)).is_ok());
    let Step::Perform { resume: second, .. } = vm.suspend_perform("b".to_owned(), vec![]) else {
        panic!("expected a suspension");
    };
    assert!(vm.resume(first, Value::Int(1)).is_err());
    assert!(vm.poll().is_err());
    assert!(vm.resume(second, Value::Int(1)).is_ok());
    assert!(matches!(vm.poll(), Ok(Step::Done(Value::Int(42)))));
}

/// A finished machine has nothing to do, and starts again.
#[test]
fn a_machine_runs_one_module_after_another() {
    let mut vm = Vm::new();
    for _ in 0..2 {
        vm.start_module(adder());
        assert!(matches!(vm.poll(), Ok(Step::Done(Value::Int(42)))));
    }
}

/// A host that counts how often it is asked for a variable.
struct Counting(std::cell::Cell<usize>);

impl Host for Counting {
    fn read_file(&self, path: &str) -> Result<String, String> {
        Err(format!("path '{path}' does not exist"))
    }

    fn read_dir(&self, path: &str) -> Result<Vec<(String, FileType)>, String> {
        Err(format!("path '{path}' does not exist"))
    }

    fn path_exists(&self, _path: &str) -> bool {
        false
    }

    fn file_type(&self, path: &str) -> Result<FileType, String> {
        Err(format!("path '{path}' does not exist"))
    }

    fn env(&self, name: &str) -> String {
        self.0.set(self.0.get() + 1);
        format!("{name}{}", self.0.get())
    }

    fn float(&self, _ask: FloatAsk) -> FloatAnswer {
        FloatAnswer::Int(0)
    }

    fn number(&self, _digits: &str) -> u64 {
        0
    }
}

/// What a slot came to stays: a variable is read once however often it is
/// used, and again only where it is written again.
#[test]
fn a_slot_is_computed_once() {
    let host = Counting(std::cell::Cell::new(0));
    let once = eval_str("let x = builtins.getEnv \"V\"; in [ x x (x + x) ]", &host).unwrap();
    assert_eq!(once, "[ \"V1\" \"V1\" \"V1V1\" ]");
    assert_eq!(host.0.get(), 1);
    let twice = eval_str("[ (builtins.getEnv \"V\") (builtins.getEnv \"V\") ]", &host).unwrap();
    assert_eq!(twice, "[ \"V2\" \"V3\" ]");
}

/// A caught failure is delivered to the innermost guard only.
#[test]
fn the_innermost_guard_catches() {
    let host = Counting(std::cell::Cell::new(0));
    let src = "(builtins.tryEval [ (builtins.tryEval (throw \"x\")).success ]).success";
    assert_eq!(eval_str(src, &host).unwrap(), "true");
}

/// Every builtin has its name in the set, implemented or not.
#[test]
fn builtins_are_members() {
    let host = Counting(std::cell::Cell::new(0));
    for name in ["map", "fetchurl", "derivationStrict", "toXML", "true"] {
        let src = format!("builtins ? {name}");
        assert_eq!(eval_str(&src, &host).unwrap(), "true", "{name}");
    }
    assert_eq!(eval_str("builtins ? nothing", &host).unwrap(), "false");
}
