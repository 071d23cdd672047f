//! The table of builtins. The index is a contract: a compiled module that
//! refers to builtin N means entry N of this table, so entries are only ever
//! appended.
use crate::lang::conts::Walked;
use crate::lang::frames::{Begin, Cont, Yield};
use crate::lang::heap::{bind, set_bind, Fault, Heap, HeapView, Slot, SlotState, Sym, Value};
use crate::lang::lists::{Started, Test};
use crate::lang::strings::is_text;
use crate::lang::strings::slice_of;
use crate::text::{append_all, copy_of, text_of, Text};
use vstd::prelude::*;

verus! {

/// How many builtins there are.
pub const BUILTINS: u16 = 74;

/// The name of a builtin.
pub open spec fn builtin_text(i: u16) -> Seq<char> {
    if i == 0 {
        "throw"@
    } else if i == 1 {
        "abort"@
    } else if i == 2 {
        "toString"@
    } else if i == 3 {
        "map"@
    } else if i == 4 {
        "isNull"@
    } else if i == 5 {
        "baseNameOf"@
    } else if i == 6 {
        "dirOf"@
    } else if i == 7 {
        "length"@
    } else if i == 8 {
        "head"@
    } else if i == 9 {
        "tail"@
    } else if i == 10 {
        "elemAt"@
    } else if i == 11 {
        "elem"@
    } else if i == 12 {
        "filter"@
    } else if i == 13 {
        "any"@
    } else if i == 14 {
        "all"@
    } else if i == 15 {
        "concatLists"@
    } else if i == 16 {
        "concatMap"@
    } else if i == 17 {
        "genList"@
    } else if i == 18 {
        "foldl'"@
    } else if i == 19 {
        "sort"@
    } else if i == 20 {
        "attrNames"@
    } else if i == 21 {
        "attrValues"@
    } else if i == 22 {
        "getAttr"@
    } else if i == 23 {
        "hasAttr"@
    } else if i == 24 {
        "removeAttrs"@
    } else if i == 25 {
        "intersectAttrs"@
    } else if i == 26 {
        "catAttrs"@
    } else if i == 27 {
        "listToAttrs"@
    } else if i == 28 {
        "mapAttrs"@
    } else if i == 29 {
        "groupBy"@
    } else if i == 30 {
        "partition"@
    } else if i == 31 {
        "stringLength"@
    } else if i == 32 {
        "substring"@
    } else if i == 33 {
        "concatStringsSep"@
    } else if i == 34 {
        "replaceStrings"@
    } else if i == 35 {
        "splitVersion"@
    } else if i == 36 {
        "seq"@
    } else if i == 37 {
        "deepSeq"@
    } else if i == 38 {
        "tryEval"@
    } else if i == 39 {
        "functionArgs"@
    } else if i == 40 {
        "typeOf"@
    } else if i == 41 {
        "isInt"@
    } else if i == 42 {
        "isFloat"@
    } else if i == 43 {
        "isBool"@
    } else if i == 44 {
        "isString"@
    } else if i == 45 {
        "isPath"@
    } else if i == 46 {
        "isList"@
    } else if i == 47 {
        "isAttrs"@
    } else if i == 48 {
        "isFunction"@
    } else if i == 49 {
        "add"@
    } else if i == 50 {
        "sub"@
    } else if i == 51 {
        "mul"@
    } else if i == 52 {
        "div"@
    } else if i == 53 {
        "lessThan"@
    } else if i == 54 {
        "bitAnd"@
    } else if i == 55 {
        "bitOr"@
    } else if i == 56 {
        "bitXor"@
    } else if i == 57 {
        "floor"@
    } else if i == 58 {
        "ceil"@
    } else if i == 59 {
        "compareVersions"@
    } else if i == 60 {
        "import"@
    } else if i == 61 {
        "readFile"@
    } else if i == 62 {
        "pathExists"@
    } else if i == 63 {
        "readDir"@
    } else if i == 64 {
        "readFileType"@
    } else if i == 65 {
        "genericClosure"@
    } else if i == 66 {
        "getEnv"@
    } else if i == 67 {
        "zipAttrsWith"@
    } else if i == 68 {
        "hashString"@
    } else if i == 69 {
        "match"@
    } else if i == 70 {
        "split"@
    } else if i == 71 {
        "fromJSON"@
    } else if i == 72 {
        "fromTOML"@
    } else if i == 73 {
        "toJSON"@
    } else {
        ""@
    }
}

/// The name of a builtin.
pub fn builtin_name(i: u16) -> (r: &'static str)
    ensures
        r@ == builtin_text(i),
{
    if i == 0 {
        "throw"
    } else if i == 1 {
        "abort"
    } else if i == 2 {
        "toString"
    } else if i == 3 {
        "map"
    } else if i == 4 {
        "isNull"
    } else if i == 5 {
        "baseNameOf"
    } else if i == 6 {
        "dirOf"
    } else if i == 7 {
        "length"
    } else if i == 8 {
        "head"
    } else if i == 9 {
        "tail"
    } else if i == 10 {
        "elemAt"
    } else if i == 11 {
        "elem"
    } else if i == 12 {
        "filter"
    } else if i == 13 {
        "any"
    } else if i == 14 {
        "all"
    } else if i == 15 {
        "concatLists"
    } else if i == 16 {
        "concatMap"
    } else if i == 17 {
        "genList"
    } else if i == 18 {
        "foldl'"
    } else if i == 19 {
        "sort"
    } else if i == 20 {
        "attrNames"
    } else if i == 21 {
        "attrValues"
    } else if i == 22 {
        "getAttr"
    } else if i == 23 {
        "hasAttr"
    } else if i == 24 {
        "removeAttrs"
    } else if i == 25 {
        "intersectAttrs"
    } else if i == 26 {
        "catAttrs"
    } else if i == 27 {
        "listToAttrs"
    } else if i == 28 {
        "mapAttrs"
    } else if i == 29 {
        "groupBy"
    } else if i == 30 {
        "partition"
    } else if i == 31 {
        "stringLength"
    } else if i == 32 {
        "substring"
    } else if i == 33 {
        "concatStringsSep"
    } else if i == 34 {
        "replaceStrings"
    } else if i == 35 {
        "splitVersion"
    } else if i == 36 {
        "seq"
    } else if i == 37 {
        "deepSeq"
    } else if i == 38 {
        "tryEval"
    } else if i == 39 {
        "functionArgs"
    } else if i == 40 {
        "typeOf"
    } else if i == 41 {
        "isInt"
    } else if i == 42 {
        "isFloat"
    } else if i == 43 {
        "isBool"
    } else if i == 44 {
        "isString"
    } else if i == 45 {
        "isPath"
    } else if i == 46 {
        "isList"
    } else if i == 47 {
        "isAttrs"
    } else if i == 48 {
        "isFunction"
    } else if i == 49 {
        "add"
    } else if i == 50 {
        "sub"
    } else if i == 51 {
        "mul"
    } else if i == 52 {
        "div"
    } else if i == 53 {
        "lessThan"
    } else if i == 54 {
        "bitAnd"
    } else if i == 55 {
        "bitOr"
    } else if i == 56 {
        "bitXor"
    } else if i == 57 {
        "floor"
    } else if i == 58 {
        "ceil"
    } else if i == 59 {
        "compareVersions"
    } else if i == 60 {
        "import"
    } else if i == 61 {
        "readFile"
    } else if i == 62 {
        "pathExists"
    } else if i == 63 {
        "readDir"
    } else if i == 64 {
        "readFileType"
    } else if i == 65 {
        "genericClosure"
    } else if i == 66 {
        "getEnv"
    } else if i == 67 {
        "zipAttrsWith"
    } else if i == 68 {
        "hashString"
    } else if i == 69 {
        "match"
    } else if i == 70 {
        "split"
    } else if i == 71 {
        "fromJSON"
    } else if i == 72 {
        "fromTOML"
    } else if i == 73 {
        "toJSON"
    } else {
        ""
    }
}

/// The names under which builtins are registered, a leading `__` meaning
/// that the bare name is not global.
pub open spec fn primop_text(i: usize) -> Seq<char> {
    if i == 0 {
        "abort"@
    } else if i == 1 {
        "__add"@
    } else if i == 2 {
        "__addDrvOutputDependencies"@
    } else if i == 3 {
        "__addErrorContext"@
    } else if i == 4 {
        "__all"@
    } else if i == 5 {
        "__any"@
    } else if i == 6 {
        "__appendContext"@
    } else if i == 7 {
        "__attrNames"@
    } else if i == 8 {
        "__attrValues"@
    } else if i == 9 {
        "baseNameOf"@
    } else if i == 10 {
        "__bitAnd"@
    } else if i == 11 {
        "__bitOr"@
    } else if i == 12 {
        "__bitXor"@
    } else if i == 13 {
        "break"@
    } else if i == 14 {
        "__catAttrs"@
    } else if i == 15 {
        "__ceil"@
    } else if i == 16 {
        "__compareVersions"@
    } else if i == 17 {
        "__concatLists"@
    } else if i == 18 {
        "__concatMap"@
    } else if i == 19 {
        "__concatStringsSep"@
    } else if i == 20 {
        "__convertHash"@
    } else if i == 21 {
        "__deepSeq"@
    } else if i == 22 {
        "derivationStrict"@
    } else if i == 23 {
        "dirOf"@
    } else if i == 24 {
        "__div"@
    } else if i == 25 {
        "__elem"@
    } else if i == 26 {
        "__elemAt"@
    } else if i == 27 {
        "fetchGit"@
    } else if i == 28 {
        "fetchMercurial"@
    } else if i == 29 {
        "fetchTarball"@
    } else if i == 30 {
        "fetchTree"@
    } else if i == 31 {
        "__fetchurl"@
    } else if i == 32 {
        "__filter"@
    } else if i == 33 {
        "__filterSource"@
    } else if i == 34 {
        "__findFile"@
    } else if i == 35 {
        "__flakeRefToString"@
    } else if i == 36 {
        "__floor"@
    } else if i == 37 {
        "__foldl'"@
    } else if i == 38 {
        "__fromJSON"@
    } else if i == 39 {
        "fromTOML"@
    } else if i == 40 {
        "__functionArgs"@
    } else if i == 41 {
        "__genList"@
    } else if i == 42 {
        "__genericClosure"@
    } else if i == 43 {
        "__getAttr"@
    } else if i == 44 {
        "__getContext"@
    } else if i == 45 {
        "__getEnv"@
    } else if i == 46 {
        "__getFlake"@
    } else if i == 47 {
        "__groupBy"@
    } else if i == 48 {
        "__hasAttr"@
    } else if i == 49 {
        "__hasContext"@
    } else if i == 50 {
        "__hashFile"@
    } else if i == 51 {
        "__hashString"@
    } else if i == 52 {
        "__head"@
    } else if i == 53 {
        "import"@
    } else if i == 54 {
        "__intersectAttrs"@
    } else if i == 55 {
        "__isAttrs"@
    } else if i == 56 {
        "__isBool"@
    } else if i == 57 {
        "__isFloat"@
    } else if i == 58 {
        "__isFunction"@
    } else if i == 59 {
        "__isInt"@
    } else if i == 60 {
        "__isList"@
    } else if i == 61 {
        "isNull"@
    } else if i == 62 {
        "__isPath"@
    } else if i == 63 {
        "__isString"@
    } else if i == 64 {
        "__length"@
    } else if i == 65 {
        "__lessThan"@
    } else if i == 66 {
        "__listToAttrs"@
    } else if i == 67 {
        "map"@
    } else if i == 68 {
        "__mapAttrs"@
    } else if i == 69 {
        "__match"@
    } else if i == 70 {
        "__mul"@
    } else if i == 71 {
        "__outputOf"@
    } else if i == 72 {
        "__parseDrvName"@
    } else if i == 73 {
        "__parseFlakeRef"@
    } else if i == 74 {
        "__partition"@
    } else if i == 75 {
        "__path"@
    } else if i == 76 {
        "__pathExists"@
    } else if i == 77 {
        "placeholder"@
    } else if i == 78 {
        "__readDir"@
    } else if i == 79 {
        "__readFile"@
    } else if i == 80 {
        "__readFileType"@
    } else if i == 81 {
        "removeAttrs"@
    } else if i == 82 {
        "__replaceStrings"@
    } else if i == 83 {
        "scopedImport"@
    } else if i == 84 {
        "__seq"@
    } else if i == 85 {
        "__sort"@
    } else if i == 86 {
        "__split"@
    } else if i == 87 {
        "__splitVersion"@
    } else if i == 88 {
        "__storePath"@
    } else if i == 89 {
        "__stringLength"@
    } else if i == 90 {
        "__sub"@
    } else if i == 91 {
        "__substring"@
    } else if i == 92 {
        "__tail"@
    } else if i == 93 {
        "throw"@
    } else if i == 94 {
        "__toFile"@
    } else if i == 95 {
        "__toJSON"@
    } else if i == 96 {
        "__toPath"@
    } else if i == 97 {
        "toString"@
    } else if i == 98 {
        "__toXML"@
    } else if i == 99 {
        "__trace"@
    } else if i == 100 {
        "__traceVerbose"@
    } else if i == 101 {
        "__tryEval"@
    } else if i == 102 {
        "__typeOf"@
    } else if i == 103 {
        "__unsafeDiscardOutputDependency"@
    } else if i == 104 {
        "__unsafeDiscardStringContext"@
    } else if i == 105 {
        "__unsafeGetAttrPos"@
    } else if i == 106 {
        "__warn"@
    } else if i == 107 {
        "__zipAttrsWith"@
    } else {
        ""@
    }
}

/// The names under which builtins are registered, a leading `__` meaning
/// that the bare name is not global.
pub fn primop_name(i: usize) -> (r: &'static str)
    ensures
        r@ == primop_text(i),
{
    if i == 0 {
        "abort"
    } else if i == 1 {
        "__add"
    } else if i == 2 {
        "__addDrvOutputDependencies"
    } else if i == 3 {
        "__addErrorContext"
    } else if i == 4 {
        "__all"
    } else if i == 5 {
        "__any"
    } else if i == 6 {
        "__appendContext"
    } else if i == 7 {
        "__attrNames"
    } else if i == 8 {
        "__attrValues"
    } else if i == 9 {
        "baseNameOf"
    } else if i == 10 {
        "__bitAnd"
    } else if i == 11 {
        "__bitOr"
    } else if i == 12 {
        "__bitXor"
    } else if i == 13 {
        "break"
    } else if i == 14 {
        "__catAttrs"
    } else if i == 15 {
        "__ceil"
    } else if i == 16 {
        "__compareVersions"
    } else if i == 17 {
        "__concatLists"
    } else if i == 18 {
        "__concatMap"
    } else if i == 19 {
        "__concatStringsSep"
    } else if i == 20 {
        "__convertHash"
    } else if i == 21 {
        "__deepSeq"
    } else if i == 22 {
        "derivationStrict"
    } else if i == 23 {
        "dirOf"
    } else if i == 24 {
        "__div"
    } else if i == 25 {
        "__elem"
    } else if i == 26 {
        "__elemAt"
    } else if i == 27 {
        "fetchGit"
    } else if i == 28 {
        "fetchMercurial"
    } else if i == 29 {
        "fetchTarball"
    } else if i == 30 {
        "fetchTree"
    } else if i == 31 {
        "__fetchurl"
    } else if i == 32 {
        "__filter"
    } else if i == 33 {
        "__filterSource"
    } else if i == 34 {
        "__findFile"
    } else if i == 35 {
        "__flakeRefToString"
    } else if i == 36 {
        "__floor"
    } else if i == 37 {
        "__foldl'"
    } else if i == 38 {
        "__fromJSON"
    } else if i == 39 {
        "fromTOML"
    } else if i == 40 {
        "__functionArgs"
    } else if i == 41 {
        "__genList"
    } else if i == 42 {
        "__genericClosure"
    } else if i == 43 {
        "__getAttr"
    } else if i == 44 {
        "__getContext"
    } else if i == 45 {
        "__getEnv"
    } else if i == 46 {
        "__getFlake"
    } else if i == 47 {
        "__groupBy"
    } else if i == 48 {
        "__hasAttr"
    } else if i == 49 {
        "__hasContext"
    } else if i == 50 {
        "__hashFile"
    } else if i == 51 {
        "__hashString"
    } else if i == 52 {
        "__head"
    } else if i == 53 {
        "import"
    } else if i == 54 {
        "__intersectAttrs"
    } else if i == 55 {
        "__isAttrs"
    } else if i == 56 {
        "__isBool"
    } else if i == 57 {
        "__isFloat"
    } else if i == 58 {
        "__isFunction"
    } else if i == 59 {
        "__isInt"
    } else if i == 60 {
        "__isList"
    } else if i == 61 {
        "isNull"
    } else if i == 62 {
        "__isPath"
    } else if i == 63 {
        "__isString"
    } else if i == 64 {
        "__length"
    } else if i == 65 {
        "__lessThan"
    } else if i == 66 {
        "__listToAttrs"
    } else if i == 67 {
        "map"
    } else if i == 68 {
        "__mapAttrs"
    } else if i == 69 {
        "__match"
    } else if i == 70 {
        "__mul"
    } else if i == 71 {
        "__outputOf"
    } else if i == 72 {
        "__parseDrvName"
    } else if i == 73 {
        "__parseFlakeRef"
    } else if i == 74 {
        "__partition"
    } else if i == 75 {
        "__path"
    } else if i == 76 {
        "__pathExists"
    } else if i == 77 {
        "placeholder"
    } else if i == 78 {
        "__readDir"
    } else if i == 79 {
        "__readFile"
    } else if i == 80 {
        "__readFileType"
    } else if i == 81 {
        "removeAttrs"
    } else if i == 82 {
        "__replaceStrings"
    } else if i == 83 {
        "scopedImport"
    } else if i == 84 {
        "__seq"
    } else if i == 85 {
        "__sort"
    } else if i == 86 {
        "__split"
    } else if i == 87 {
        "__splitVersion"
    } else if i == 88 {
        "__storePath"
    } else if i == 89 {
        "__stringLength"
    } else if i == 90 {
        "__sub"
    } else if i == 91 {
        "__substring"
    } else if i == 92 {
        "__tail"
    } else if i == 93 {
        "throw"
    } else if i == 94 {
        "__toFile"
    } else if i == 95 {
        "__toJSON"
    } else if i == 96 {
        "__toPath"
    } else if i == 97 {
        "toString"
    } else if i == 98 {
        "__toXML"
    } else if i == 99 {
        "__trace"
    } else if i == 100 {
        "__traceVerbose"
    } else if i == 101 {
        "__tryEval"
    } else if i == 102 {
        "__typeOf"
    } else if i == 103 {
        "__unsafeDiscardOutputDependency"
    } else if i == 104 {
        "__unsafeDiscardStringContext"
    } else if i == 105 {
        "__unsafeGetAttrPos"
    } else if i == 106 {
        "__warn"
    } else if i == 107 {
        "__zipAttrsWith"
    } else {
        ""
    }
}

/// Globals that are not functions of the table.
pub open spec fn extra_global_text(i: usize) -> Seq<char> {
    if i == 0 {
        "derivation"@
    } else if i == 1 {
        "__currentSystem"@
    } else if i == 2 {
        "__currentTime"@
    } else if i == 3 {
        "__langVersion"@
    } else if i == 4 {
        "__nixPath"@
    } else if i == 5 {
        "__nixVersion"@
    } else if i == 6 {
        "__storeDir"@
    } else {
        ""@
    }
}

/// Globals that are not functions of the table.
pub fn extra_global_name(i: usize) -> (r: &'static str)
    ensures
        r@ == extra_global_text(i),
{
    if i == 0 {
        "derivation"
    } else if i == 1 {
        "__currentSystem"
    } else if i == 2 {
        "__currentTime"
    } else if i == 3 {
        "__langVersion"
    } else if i == 4 {
        "__nixPath"
    } else if i == 5 {
        "__nixVersion"
    } else if i == 6 {
        "__storeDir"
    } else {
        ""
    }
}

/// Members of the `builtins` set that are not functions of the table.
pub open spec fn extra_member_text(i: usize) -> Seq<char> {
    if i == 0 {
        "currentSystem"@
    } else if i == 1 {
        "currentTime"@
    } else if i == 2 {
        "derivation"@
    } else if i == 3 {
        "langVersion"@
    } else if i == 4 {
        "nixPath"@
    } else if i == 5 {
        "nixVersion"@
    } else if i == 6 {
        "storeDir"@
    } else {
        ""@
    }
}

/// Members of the `builtins` set that are not functions of the table.
pub fn extra_member_name(i: usize) -> (r: &'static str)
    ensures
        r@ == extra_member_text(i),
{
    if i == 0 {
        "currentSystem"
    } else if i == 1 {
        "currentTime"
    } else if i == 2 {
        "derivation"
    } else if i == 3 {
        "langVersion"
    } else if i == 4 {
        "nixPath"
    } else if i == 5 {
        "nixVersion"
    } else if i == 6 {
        "storeDir"
    } else {
        ""
    }
}

pub const PRIMOPS: usize = 108;

pub const EXTRA_GLOBALS: usize = 7;

pub const EXTRA_MEMBERS: usize = 7;

/// How many arguments a builtin takes.
pub open spec fn arity(idx: u16) -> usize {
    if idx == 18 || idx == 32 || idx == 34 {
        3
    } else if idx == 0 || idx == 1 || idx == 2 || idx == 4 || idx == 5 || idx == 6 || idx == 7 || idx == 8 || idx == 9 || idx == 15 || idx == 20 || idx == 21 || idx == 27 || idx == 31 || idx == 35 || idx == 38 || idx == 39 || idx == 40 || idx == 41 || idx == 42 || idx == 43 || idx == 44 || idx == 45 || idx == 46 || idx == 47 || idx == 48 || idx == 57 || idx == 58 || idx == 60 || idx == 61 || idx == 62 || idx == 63 || idx == 64 || idx == 65 || idx == 66 || idx == 71 || idx == 72 || idx == 73 {
        1
    } else {
        2
    }
}

pub fn arity_of(idx: u16) -> (r: usize)
    ensures
        r == arity(idx),
{
    if idx == 18 || idx == 32 || idx == 34 {
        3
    } else if idx == 0 || idx == 1 || idx == 2 || idx == 4 || idx == 5 || idx == 6 || idx == 7 || idx == 8 || idx == 9 || idx == 15 || idx == 20 || idx == 21 || idx == 27 || idx == 31 || idx == 35 || idx == 38 || idx == 39 || idx == 40 || idx == 41 || idx == 42 || idx == 43 || idx == 44 || idx == 45 || idx == 46 || idx == 47 || idx == 48 || idx == 57 || idx == 58 || idx == 60 || idx == 61 || idx == 62 || idx == 63 || idx == 64 || idx == 65 || idx == 66 || idx == 71 || idx == 72 || idx == 73 {
        1
    } else {
        2
    }
}

/// Whether argument `i` is left unforced before the body runs.
pub open spec fn is_lazy(idx: u16, i: usize) -> bool {
    (idx == 18 && i == 1) || (idx == 37 && i < 2) || (idx == 38 && i == 0) || (idx == 73 && i == 0)
}

/// The first argument from `i` on that is forced before the body runs.
pub open spec fn next_strict(idx: u16, i: usize) -> usize {
    if is_lazy(idx, i) {
        if is_lazy(idx, (i + 1) as usize) {
            (i + 2) as usize
        } else {
            (i + 1) as usize
        }
    } else {
        i
    }
}

fn lazy(idx: u16, i: usize) -> (r: bool)
    ensures
        r == is_lazy(idx, i),
        r ==> i < 2,
{
    (idx == 18 && i == 1) || (idx == 37 && i < 2) || (idx == 38 && i == 0) || (idx == 73 && i == 0)
}

fn strict_from(idx: u16, i: usize) -> (r: usize)
    ensures
        r == next_strict(idx, i),
{
    if lazy(idx, i) {
        if lazy(idx, i + 1) {
            i + 2
        } else {
            i + 1
        }
    } else {
        i
    }
}

/// The index of the builtin with a name, from `i` on.
pub open spec fn index_from(name: Seq<char>, i: u16) -> Option<u16>
    decreases BUILTINS - i,
{
    if i >= BUILTINS {
        None
    } else if builtin_text(i) == name {
        Some(i)
    } else {
        index_from(name, (i + 1) as u16)
    }
}

/// The table index of a name.
pub open spec fn builtin_index(name: Seq<char>) -> Option<u16> {
    index_from(name, 0)
}

pub fn builtin_index_of(name: &Text) -> (r: Option<u16>)
    ensures
        r == builtin_index(name@),
{
    let mut i: u16 = 0;
    while i < BUILTINS
        invariant
            i <= BUILTINS,
            index_from(name@, i) == builtin_index(name@),
        decreases BUILTINS - i,
    {
        if is_text(name, builtin_name(i)) {
            return Some(i);
        }
        i += 1;
    }
    None
}

/// The table index of a builtin's name.
pub fn global_index(name: &str) -> (r: Option<u16>)
    ensures
        r == builtin_index(name@),
{
    builtin_index_of(&text_of(name))
}

/// A name without its `__`.
pub open spec fn bare(t: Seq<char>) -> Seq<char> {
    if t.len() >= 2 && t[0] == '_' && t[1] == '_' {
        t.skip(2)
    } else {
        t
    }
}

pub fn bare_of(t: &Text) -> (r: Text)
    ensures
        r@ == bare(t@),
{
    if t.len() >= 2 && t[0] == '_' && t[1] == '_' {
        let r = slice_of(t, 2, t.len());
        assert(r@ =~= t@.skip(2));
        r
    } else {
        copy_of(t)
    }
}

pub open spec fn is_primop_from(name: Seq<char>, i: usize) -> bool
    decreases PRIMOPS - i,
{
    i < PRIMOPS && (primop_text(i) == name || is_primop_from(name, (i + 1) as usize))
}

pub open spec fn is_extra_from(name: Seq<char>, i: usize) -> bool
    decreases EXTRA_GLOBALS - i,
{
    i < EXTRA_GLOBALS && (extra_global_text(i) == name || is_extra_from(name, (i + 1) as usize))
}

/// Whether a name is in global scope, with or without an implementation.
pub open spec fn is_global(name: Seq<char>) -> bool {
    is_primop_from(name, 0) || is_extra_from(name, 0)
}

pub fn is_global_text(name: &Text) -> (r: bool)
    ensures
        r == is_global(name@),
{
    let mut i: usize = 0;
    while i < PRIMOPS
        invariant
            i <= PRIMOPS,
            is_primop_from(name@, i) == is_primop_from(name@, 0),
        decreases PRIMOPS - i,
    {
        if is_text(name, primop_name(i)) {
            return true;
        }
        i += 1;
    }
    let mut i: usize = 0;
    while i < EXTRA_GLOBALS
        invariant
            i <= EXTRA_GLOBALS,
            !is_primop_from(name@, 0),
            is_extra_from(name@, i) == is_extra_from(name@, 0),
        decreases EXTRA_GLOBALS - i,
    {
        if is_text(name, extra_global_name(i)) {
            return true;
        }
        i += 1;
    }
    false
}

/// Whether a name is in global scope, with or without an implementation.
pub fn is_cpp_global(name: &str) -> (r: bool)
    ensures
        r == is_global(name@),
{
    is_global_text(&text_of(name))
}

impl HeapView {
    /// A builtin as a value, not applied to anything.
    pub open spec fn mk_value(self, idx: u16) -> (HeapView, Value) {
        let (h, args) = self.new_list(Seq::empty());
        (h, Value::Builtin { idx, args })
    }

    /// The slot for a member of the `builtins` set: the implementation where
    /// there is one, and a report on use otherwise.
    pub open spec fn member_slot(self, name: Seq<char>) -> (HeapView, Slot) {
        match builtin_index(name) {
            Some(idx) => {
                let (h, v) = self.mk_value(idx);
                h.value_slot(v)
            },
            None => {
                let (h, t) = self.new_text("builtins."@ + name);
                h.new_slot(SlotState::Unimplemented(t))
            },
        }
    }

    pub open spec fn add_member(self, name: Seq<char>, set: Seq<(Sym, Slot)>) -> (
        HeapView,
        Seq<(Sym, Slot)>,
    ) {
        let (h, sym) = self.intern(name);
        let (h, s) = h.member_slot(name);
        (h, bind(set, sym, s))
    }

    pub open spec fn add_primops(self, i: usize, set: Seq<(Sym, Slot)>) -> (
        HeapView,
        Seq<(Sym, Slot)>,
    )
        decreases PRIMOPS - i,
    {
        if i >= PRIMOPS {
            (self, set)
        } else {
            let (h, set) = self.add_member(bare(primop_text(i)), set);
            h.add_primops((i + 1) as usize, set)
        }
    }

    pub open spec fn add_extras(self, i: usize, set: Seq<(Sym, Slot)>) -> (
        HeapView,
        Seq<(Sym, Slot)>,
    )
        decreases EXTRA_MEMBERS - i,
    {
        if i >= EXTRA_MEMBERS {
            (self, set)
        } else {
            let (h, set) = self.add_member(extra_member_text(i), set);
            h.add_extras((i + 1) as usize, set)
        }
    }

    pub open spec fn add_value(self, name: Seq<char>, v: Value, set: Seq<(Sym, Slot)>) -> (
        HeapView,
        Seq<(Sym, Slot)>,
    ) {
        let (h, sym) = self.intern(name);
        let (h, s) = h.value_slot(v);
        (h, bind(set, sym, s))
    }

    /// The `builtins` set: every known name is present. Its own `builtins`
    /// member is an empty set.
    pub open spec fn builtins_set(self) -> (HeapView, Value) {
        let (h, set) = self.add_primops(0, Seq::empty());
        let (h, set) = h.add_extras(0, set);
        let (h, set) = h.add_value("true"@, Value::Bool(true), set);
        let (h, set) = h.add_value("false"@, Value::Bool(false), set);
        let (h, set) = h.add_value("null"@, Value::Null, set);
        let (h, b) = h.attrs_value(Seq::empty());
        let (h, set) = h.add_value("builtins"@, b, set);
        h.attrs_value(set)
    }

    /// Runs the body of a builtin.
    pub open spec fn run(self, idx: u16, args: usize) -> Started {
        if idx == 0 {
            self.bi_throw(args)
        } else if idx == 1 {
            self.bi_abort(args)
        } else if idx == 2 {
            self.bi_to_string(args)
        } else if idx == 3 {
            self.bi_map(args)
        } else if idx == 4 {
            self.bi_is(args, Test::Null)
        } else if idx == 5 {
            self.bi_base_name_of(args)
        } else if idx == 6 {
            self.bi_dir_of(args)
        } else if idx == 7 {
            self.bi_length(args)
        } else if idx == 8 {
            self.bi_head(args)
        } else if idx == 9 {
            self.bi_tail(args)
        } else if idx == 10 {
            self.bi_elem_at(args)
        } else if idx == 11 {
            self.bi_elem(args)
        } else if idx == 12 {
            self.bi_filter(args)
        } else if idx == 13 {
            self.bi_any(args)
        } else if idx == 14 {
            self.bi_all(args)
        } else if idx == 15 {
            self.bi_concat_lists(args)
        } else if idx == 16 {
            self.bi_concat_map(args)
        } else if idx == 17 {
            self.bi_gen_list(args)
        } else if idx == 18 {
            self.bi_foldl_strict(args)
        } else if idx == 19 {
            self.bi_sort(args)
        } else if idx == 20 {
            self.bi_attr_names(args)
        } else if idx == 21 {
            self.bi_attr_values(args)
        } else if idx == 22 {
            self.bi_get_attr(args)
        } else if idx == 23 {
            self.bi_has_attr(args)
        } else if idx == 24 {
            self.bi_remove_attrs(args)
        } else if idx == 25 {
            self.bi_intersect_attrs(args)
        } else if idx == 26 {
            self.bi_cat_attrs(args)
        } else if idx == 27 {
            self.bi_list_to_attrs(args)
        } else if idx == 28 {
            self.bi_map_attrs(args)
        } else if idx == 29 {
            self.bi_group_by(args)
        } else if idx == 30 {
            self.bi_partition(args)
        } else if idx == 31 {
            self.bi_string_length(args)
        } else if idx == 32 {
            self.bi_substring(args)
        } else if idx == 33 {
            self.bi_concat_strings_sep(args)
        } else if idx == 34 {
            self.bi_replace_strings(args)
        } else if idx == 35 {
            self.bi_split_version(args)
        } else if idx == 36 {
            self.bi_seq(args)
        } else if idx == 37 {
            self.bi_deep_seq(args)
        } else if idx == 38 {
            self.bi_try_eval(args)
        } else if idx == 39 {
            self.bi_function_args(args)
        } else if idx == 40 {
            self.bi_type_of(args)
        } else if idx == 41 {
            self.bi_is(args, Test::Int)
        } else if idx == 42 {
            self.bi_is(args, Test::Float)
        } else if idx == 43 {
            self.bi_is(args, Test::Bool)
        } else if idx == 44 {
            self.bi_is(args, Test::Str)
        } else if idx == 45 {
            self.bi_is(args, Test::Path)
        } else if idx == 46 {
            self.bi_is(args, Test::List)
        } else if idx == 47 {
            self.bi_is(args, Test::Attrs)
        } else if idx == 48 {
            self.bi_is(args, Test::Function)
        } else if idx == 49 {
            self.bi_add(args)
        } else if idx == 50 {
            self.bi_sub(args)
        } else if idx == 51 {
            self.bi_mul(args)
        } else if idx == 52 {
            self.bi_div(args)
        } else if idx == 53 {
            self.bi_less_than(args)
        } else if idx == 54 {
            self.bi_bit_and(args)
        } else if idx == 55 {
            self.bi_bit_or(args)
        } else if idx == 56 {
            self.bi_bit_xor(args)
        } else if idx == 57 {
            self.bi_floor(args)
        } else if idx == 58 {
            self.bi_ceil(args)
        } else if idx == 59 {
            self.bi_compare_versions(args)
        } else if idx == 60 {
            self.bi_import(args)
        } else if idx == 61 {
            self.bi_read_file(args)
        } else if idx == 62 {
            self.bi_path_exists(args)
        } else if idx == 63 {
            self.bi_read_dir(args)
        } else if idx == 64 {
            self.bi_read_file_type(args)
        } else if idx == 65 {
            self.bi_generic_closure(args)
        } else if idx == 66 {
            self.bi_get_env(args)
        } else if idx == 67 {
            self.bi_zip_attrs_with(args)
        } else if idx == 68 {
            self.bi_hash_string(args)
        } else if idx == 69 {
            self.bi_match(args)
        } else if idx == 70 {
            self.bi_split(args)
        } else if idx == 71 {
            self.bi_from_json(args)
        } else if idx == 72 {
            self.bi_from_toml(args)
        } else if idx == 73 {
            self.bi_to_json(args)
        } else {
            self.fail("internal: bad builtin index"@)
        }
    }
}

impl Heap {
    pub fn mk_value(&mut self, idx: u16) -> (v: Value)
        ensures
            old(self)@.mk_value(idx) == (final(self)@, v),
    {
        let args = self.new_list(Vec::new());
        Value::Builtin { idx, args }
    }

    fn member_slot(&mut self, name: &Text) -> (s: Slot)
        ensures
            old(self)@.member_slot(name@) == (final(self)@, s),
    {
        match builtin_index_of(name) {
            Some(idx) => {
                let v = self.mk_value(idx);
                self.value_slot(v)
            },
            None => {
                let mut what = text_of("builtins.");
                append_all(&mut what, name);
                let t = self.new_text(what);
                self.new_slot(SlotState::Unimplemented(t))
            },
        }
    }

    fn add_member(&mut self, name: &Text, set: &mut Vec<(Sym, Slot)>)
        ensures
            old(self)@.add_member(name@, old(set)@) == (final(self)@, final(set)@),
    {
        let sym = self.intern(name);
        let s = self.member_slot(name);
        set_bind(set, sym, s);
    }

    fn add_value(&mut self, name: &str, v: Value, set: &mut Vec<(Sym, Slot)>)
        ensures
            old(self)@.add_value(name@, v, old(set)@) == (final(self)@, final(set)@),
    {
        let sym = self.intern(&text_of(name));
        let s = self.value_slot(v);
        set_bind(set, sym, s);
    }

    pub fn builtins_set(&mut self) -> (v: Value)
        ensures
            old(self)@.builtins_set() == (final(self)@, v),
    {
        let mut set: Vec<(Sym, Slot)> = Vec::new();
        let mut i: usize = 0;
        while i < PRIMOPS
            invariant
                i <= PRIMOPS,
                self@.add_primops(i, set@) == old(self)@.add_primops(0, Seq::empty()),
            decreases PRIMOPS - i,
        {
            let name = bare_of(&text_of(primop_name(i)));
            self.add_member(&name, &mut set);
            i += 1;
        }
        let ghost h1 = self@;
        let ghost s1 = set@;
        let mut i: usize = 0;
        while i < EXTRA_MEMBERS
            invariant
                i <= EXTRA_MEMBERS,
                self@.add_extras(i, set@) == h1.add_extras(0, s1),
            decreases EXTRA_MEMBERS - i,
        {
            let name = text_of(extra_member_name(i));
            self.add_member(&name, &mut set);
            i += 1;
        }
        self.add_value("true", Value::Bool(true), &mut set);
        self.add_value("false", Value::Bool(false), &mut set);
        self.add_value("null", Value::Null, &mut set);
        let b = self.attrs_value(Vec::new());
        self.add_value("builtins", b, &mut set);
        self.attrs_value(set)
    }

    pub fn run(&mut self, idx: u16, args: usize) -> (r: Result<Begin, Fault>)
        ensures
            old(self)@.run(idx, args) == (final(self)@, r),
    {
        if idx == 0 {
            self.bi_throw(args)
        } else if idx == 1 {
            self.bi_abort(args)
        } else if idx == 2 {
            self.bi_to_string(args)
        } else if idx == 3 {
            self.bi_map(args)
        } else if idx == 4 {
            self.bi_is(args, Test::Null)
        } else if idx == 5 {
            self.bi_base_name_of(args)
        } else if idx == 6 {
            self.bi_dir_of(args)
        } else if idx == 7 {
            self.bi_length(args)
        } else if idx == 8 {
            self.bi_head(args)
        } else if idx == 9 {
            self.bi_tail(args)
        } else if idx == 10 {
            self.bi_elem_at(args)
        } else if idx == 11 {
            self.bi_elem(args)
        } else if idx == 12 {
            self.bi_filter(args)
        } else if idx == 13 {
            self.bi_any(args)
        } else if idx == 14 {
            self.bi_all(args)
        } else if idx == 15 {
            self.bi_concat_lists(args)
        } else if idx == 16 {
            self.bi_concat_map(args)
        } else if idx == 17 {
            self.bi_gen_list(args)
        } else if idx == 18 {
            self.bi_foldl_strict(args)
        } else if idx == 19 {
            self.bi_sort(args)
        } else if idx == 20 {
            self.bi_attr_names(args)
        } else if idx == 21 {
            self.bi_attr_values(args)
        } else if idx == 22 {
            self.bi_get_attr(args)
        } else if idx == 23 {
            self.bi_has_attr(args)
        } else if idx == 24 {
            self.bi_remove_attrs(args)
        } else if idx == 25 {
            self.bi_intersect_attrs(args)
        } else if idx == 26 {
            self.bi_cat_attrs(args)
        } else if idx == 27 {
            self.bi_list_to_attrs(args)
        } else if idx == 28 {
            self.bi_map_attrs(args)
        } else if idx == 29 {
            self.bi_group_by(args)
        } else if idx == 30 {
            self.bi_partition(args)
        } else if idx == 31 {
            self.bi_string_length(args)
        } else if idx == 32 {
            self.bi_substring(args)
        } else if idx == 33 {
            self.bi_concat_strings_sep(args)
        } else if idx == 34 {
            self.bi_replace_strings(args)
        } else if idx == 35 {
            self.bi_split_version(args)
        } else if idx == 36 {
            self.bi_seq(args)
        } else if idx == 37 {
            self.bi_deep_seq(args)
        } else if idx == 38 {
            self.bi_try_eval(args)
        } else if idx == 39 {
            self.bi_function_args(args)
        } else if idx == 40 {
            self.bi_type_of(args)
        } else if idx == 41 {
            self.bi_is(args, Test::Int)
        } else if idx == 42 {
            self.bi_is(args, Test::Float)
        } else if idx == 43 {
            self.bi_is(args, Test::Bool)
        } else if idx == 44 {
            self.bi_is(args, Test::Str)
        } else if idx == 45 {
            self.bi_is(args, Test::Path)
        } else if idx == 46 {
            self.bi_is(args, Test::List)
        } else if idx == 47 {
            self.bi_is(args, Test::Attrs)
        } else if idx == 48 {
            self.bi_is(args, Test::Function)
        } else if idx == 49 {
            self.bi_add(args)
        } else if idx == 50 {
            self.bi_sub(args)
        } else if idx == 51 {
            self.bi_mul(args)
        } else if idx == 52 {
            self.bi_div(args)
        } else if idx == 53 {
            self.bi_less_than(args)
        } else if idx == 54 {
            self.bi_bit_and(args)
        } else if idx == 55 {
            self.bi_bit_or(args)
        } else if idx == 56 {
            self.bi_bit_xor(args)
        } else if idx == 57 {
            self.bi_floor(args)
        } else if idx == 58 {
            self.bi_ceil(args)
        } else if idx == 59 {
            self.bi_compare_versions(args)
        } else if idx == 60 {
            self.bi_import(args)
        } else if idx == 61 {
            self.bi_read_file(args)
        } else if idx == 62 {
            self.bi_path_exists(args)
        } else if idx == 63 {
            self.bi_read_dir(args)
        } else if idx == 64 {
            self.bi_read_file_type(args)
        } else if idx == 65 {
            self.bi_generic_closure(args)
        } else if idx == 66 {
            self.bi_get_env(args)
        } else if idx == 67 {
            self.bi_zip_attrs_with(args)
        } else if idx == 68 {
            self.bi_hash_string(args)
        } else if idx == 69 {
            self.bi_match(args)
        } else if idx == 70 {
            self.bi_split(args)
        } else if idx == 71 {
            self.bi_from_json(args)
        } else if idx == 72 {
            self.bi_from_toml(args)
        } else if idx == 73 {
            self.bi_to_json(args)
        } else {
            self.fail_str("internal: bad builtin index")
        }
    }
}

// -- the driver --------------------------------------------------------------

impl HeapView {
    /// One step of a continuation.
    pub open spec fn step_cont(self, args: usize, c: Cont, incoming: Option<Value>) -> (
        HeapView,
        Walked,
    ) {
        match c {
            Cont::Args(_) => self.stop(c, "internal: driver state reached the walker"@),
            Cont::Start => self.stop(c, "internal: driver state reached the walker"@),
            Cont::Result => self.stop(c, "internal: driver state reached the walker"@),
            Cont::Filter { f, items, i, out } => self.step_filter(f, items, i, out, incoming),
            Cont::AnyAll { f, items, i, want } => self.step_any_all(f, items, i, want, incoming),
            Cont::ConcatMap { f, items, i, out } => self.step_concat_map(
                f,
                items,
                i,
                out,
                incoming,
            ),
            Cont::Foldl { f, items, i, acc, half, finishing } => self.step_foldl(
                f,
                items,
                i,
                acc,
                half,
                finishing,
                incoming,
            ),
            Cont::Sort { f, items, next, sorted, probe, half } => self.step_sort(
                f,
                items,
                next,
                sorted,
                probe,
                half,
                incoming,
            ),
            Cont::GroupBy { f, items, i, out } => self.step_group_by(f, items, i, out, incoming),
            Cont::Partition { f, items, i, right, wrong } => self.step_partition(
                f,
                items,
                i,
                right,
                wrong,
                incoming,
            ),
            Cont::Elem { x, items, i } => self.step_elem(x, items, i, incoming),
            Cont::ForceEach { items, i, vals, finish } => self.step_force_each(
                items,
                i,
                vals,
                finish,
                args,
                incoming,
            ),
            Cont::ListToAttrs { items, i, out, cur, name_sym, value_sym } =>
                self.step_list_to_attrs(items, i, out, cur, name_sym, value_sym, incoming),
            Cont::Replace { stage, froms, plan, used, k, tos } => self.step_replace(
                stage,
                froms,
                plan,
                used,
                k,
                tos,
                args,
                incoming,
            ),
            Cont::DeepSeq { work, seen, tail } => self.step_deep_seq(
                work,
                seen,
                tail,
                args,
                incoming,
            ),
            Cont::TryEval { started } => self.step_try_eval(started, args, incoming),
            Cont::Ask { asked, need } => self.step_ask(asked, need, incoming),
            Cont::Import { stage } => self.step_import(stage, args, incoming),
            Cont::Generic(g) => self.step_generic(g, args, incoming),
            Cont::ToJson { work, out, awaiting } => self.step_to_json(
                work,
                out,
                awaiting,
                incoming,
            ),
        }
    }

    /// Runs the body and goes on as it says.
    pub open spec fn start(self, idx: u16, args: usize) -> (HeapView, Walked) {
        match self.run(idx, args) {
            (h, Err(e)) => (h, (Cont::Start, Err(e))),
            (h, Ok(Begin::Done(v))) => (h, (Cont::Start, Ok(Yield::Done(v)))),
            (h, Ok(Begin::Force(s))) => (h, (Cont::Result, Ok(Yield::Force(s)))),
            (h, Ok(Begin::Sub(t))) => (h, (Cont::Result, Ok(Yield::Sub(t)))),
            (h, Ok(Begin::Cont(c))) => h.step_cont(args, c, None),
        }
    }

    /// One step of a builtin: force the strict arguments one by one, run the
    /// body, drive what it left.
    pub open spec fn drive(self, idx: u16, args: usize, c: Cont, incoming: Option<Value>) -> (
        HeapView,
        Walked,
    ) {
        match c {
            Cont::Args(i) => {
                let at = next_strict(idx, i);
                if at < self.list(args).len() {
                    (
                        self,
                        (
                            Cont::Args(crate::lang::conts::bump(at)),
                            Ok(Yield::Force(self.list(args)[at as int])),
                        ),
                    )
                } else {
                    self.start(idx, args)
                }
            },
            Cont::Start => self.start(idx, args),
            Cont::Result => self.hand_back(c, incoming, "internal: builtin result lost"@),
            _ => self.step_cont(args, c, incoming),
        }
    }
}

impl Heap {
    pub fn step_cont(&mut self, args: usize, c: Cont, incoming: Option<Value>) -> (r: Walked)
        ensures
            old(self)@.step_cont(args, c, incoming) == (final(self)@, r),
    {
        match c {
            Cont::Args(_) => self.stop(c, "internal: driver state reached the walker"),
            Cont::Start => self.stop(c, "internal: driver state reached the walker"),
            Cont::Result => self.stop(c, "internal: driver state reached the walker"),
            Cont::Filter { f, items, i, out } => self.step_filter(f, items, i, out, incoming),
            Cont::AnyAll { f, items, i, want } => self.step_any_all(f, items, i, want, incoming),
            Cont::ConcatMap { f, items, i, out } => self.step_concat_map(
                f,
                items,
                i,
                out,
                incoming,
            ),
            Cont::Foldl { f, items, i, acc, half, finishing } => self.step_foldl(
                f,
                items,
                i,
                acc,
                half,
                finishing,
                incoming,
            ),
            Cont::Sort { f, items, next, sorted, probe, half } => self.step_sort(
                f,
                items,
                next,
                sorted,
                probe,
                half,
                incoming,
            ),
            Cont::GroupBy { f, items, i, out } => self.step_group_by(f, items, i, out, incoming),
            Cont::Partition { f, items, i, right, wrong } => self.step_partition(
                f,
                items,
                i,
                right,
                wrong,
                incoming,
            ),
            Cont::Elem { x, items, i } => self.step_elem(x, items, i, incoming),
            Cont::ForceEach { items, i, vals, finish } => self.step_force_each(
                items,
                i,
                vals,
                finish,
                args,
                incoming,
            ),
            Cont::ListToAttrs { items, i, out, cur, name_sym, value_sym } =>
                self.step_list_to_attrs(items, i, out, cur, name_sym, value_sym, incoming),
            Cont::Replace { stage, froms, plan, used, k, tos } => self.step_replace(
                stage,
                froms,
                plan,
                used,
                k,
                tos,
                args,
                incoming,
            ),
            Cont::DeepSeq { work, seen, tail } => self.step_deep_seq(
                work,
                seen,
                tail,
                args,
                incoming,
            ),
            Cont::TryEval { started } => self.step_try_eval(started, args, incoming),
            Cont::Ask { asked, need } => self.step_ask(asked, need, incoming),
            Cont::Import { stage } => self.step_import(stage, args, incoming),
            Cont::Generic(g) => self.step_generic(g, args, incoming),
            Cont::ToJson { work, out, awaiting } => self.step_to_json(
                work,
                out,
                awaiting,
                incoming,
            ),
        }
    }

    fn start(&mut self, idx: u16, args: usize) -> (r: Walked)
        ensures
            old(self)@.start(idx, args) == (final(self)@, r),
    {
        match self.run(idx, args) {
            Err(e) => (Cont::Start, Err(e)),
            Ok(Begin::Done(v)) => (Cont::Start, Ok(Yield::Done(v))),
            Ok(Begin::Force(s)) => (Cont::Result, Ok(Yield::Force(s))),
            Ok(Begin::Sub(t)) => (Cont::Result, Ok(Yield::Sub(t))),
            Ok(Begin::Cont(c)) => self.step_cont(args, c, None),
        }
    }

    pub fn drive(&mut self, idx: u16, args: usize, c: Cont, incoming: Option<Value>) -> (r: Walked)
        ensures
            old(self)@.drive(idx, args, c, incoming) == (final(self)@, r),
    {
        match c {
            Cont::Args(i) => {
                let at = strict_from(idx, i);
                match self.list_get(args, at) {
                    Some(s) => (
                        Cont::Args(crate::lang::conts::bumped(at)),
                        Ok(Yield::Force(s)),
                    ),
                    None => self.start(idx, args),
                }
            },
            Cont::Start => self.start(idx, args),
            Cont::Result => self.hand_back(c, incoming, "internal: builtin result lost"),
            _ => self.step_cont(args, c, incoming),
        }
    }
}

} // verus!
