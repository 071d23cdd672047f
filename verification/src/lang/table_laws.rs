//! The names of the builtins are distinct, so that a name stands for one of
//! them.
use crate::lang::builtins::{builtin_index, builtin_text, index_from, BUILTINS};
use vstd::prelude::*;

verus! {

/// The first, the middle and the last character but one of a name in one
/// number. No two builtins have the same.
spec fn mark(t: Seq<char>) -> int {
    t[0] as int * 0x1_0000 + t[t.len() as int / 2] as int * 0x100 + t[t.len() - 2] as int
}

/// The builtin that a mark belongs to.
spec fn marked(k: int) -> u16 {
    if k == 7631471 {
        0
    } else if k == 6385522 {
        1
    } else if k == 7631470 {
        2
    } else if k == 7168353 {
        3
    } else if k == 6911340 {
        4
    } else if k == 6447439 {
        5
    } else if k == 6582863 {
        6
    } else if k == 7104372 {
        7
    } else if k == 6840673 {
        8
    } else if k == 7629161 {
        9
    } else if k == 6647105 {
        10
    } else if k == 6645093 {
        11
    } else if k == 6714469 {
        12
    } else if k == 6385262 {
        13
    } else if k == 6384748 {
        14
    } else if k == 6517876 {
        15
    } else if k == 6512993 {
        16
    } else if k == 6769779 {
        17
    } else if k == 6710380 {
        18
    } else if k == 7565938 {
        19
    } else if k == 6377061 {
        20
    } else if k == 6381925 {
        21
    } else if k == 6766964 {
        22
    } else if k == 6832500 {
        23
    } else if k == 7497074 {
        24
    } else if k == 6906738 {
        25
    } else if k == 6517874 {
        26
    } else if k == 7106418 {
        27
    } else if k == 7173234 {
        28
    } else if k == 6780226 {
        29
    } else if k == 7367023 {
        30
    } else if k == 7556212 {
        31
    } else if k == 7566446 {
        32
    } else if k == 6517349 {
        33
    } else if k == 7492455 {
        34
    } else if k == 7562607 {
        35
    } else if k == 7562597 {
        36
    } else if k == 6582373 {
        37
    } else if k == 7619937 {
        38
    } else if k == 6713191 {
        39
    } else if k == 7628111 {
        40
    } else if k == 6900078 {
        41
    } else if k == 6909025 {
        42
    } else if k == 6909807 {
        43
    } else if k == 6910574 {
        44
    } else if k == 6906228 {
        45
    } else if k == 6908275 {
        46
    } else if k == 6911090 {
        47
    } else if k == 6906735 {
        48
    } else if k == 6382692 {
        49
    } else if k == 7566709 {
        50
    } else if k == 7173493 {
        51
    } else if k == 6580585 {
        52
    } else if k == 7099489 {
        53
    } else if k == 6439278 {
        54
    } else if k == 6452303 {
        55
    } else if k == 6445167 {
        56
    } else if k == 6713199 {
        57
    } else if k == 6515049 {
        58
    } else if k == 6510190 {
        59
    } else if k == 6909810 {
        60
    } else if k == 7489132 {
        61
    } else if k == 7370868 {
        62
    } else if k == 7496809 {
        63
    } else if k == 7498864 {
        64
    } else if k == 6767474 {
        65
    } else if k == 6767982 {
        66
    } else if k == 8024692 {
        67
    } else if k == 6845550 {
        68
    } else if k == 7173219 {
        69
    } else if k == 7564393 {
        70
    } else if k == 6703695 {
        71
    } else if k == 6706253 {
        72
    } else if k == 7623503 {
        73
    } else {
        0
    }
}

proof fn lemma_marks_from_0(i: u16)
    requires
        0 <= i < 10,
    ensures
        marked(mark(builtin_text(i))) == i,
{
    if i == 0 {
        reveal_strlit("throw");
        assert(mark(builtin_text(i)) == 7631471);
    }
    if i == 1 {
        reveal_strlit("abort");
        assert(mark(builtin_text(i)) == 6385522);
    }
    if i == 2 {
        reveal_strlit("toString");
        assert(mark(builtin_text(i)) == 7631470);
    }
    if i == 3 {
        reveal_strlit("map");
        assert(mark(builtin_text(i)) == 7168353);
    }
    if i == 4 {
        reveal_strlit("isNull");
        assert(mark(builtin_text(i)) == 6911340);
    }
    if i == 5 {
        reveal_strlit("baseNameOf");
        assert(mark(builtin_text(i)) == 6447439);
    }
    if i == 6 {
        reveal_strlit("dirOf");
        assert(mark(builtin_text(i)) == 6582863);
    }
    if i == 7 {
        reveal_strlit("length");
        assert(mark(builtin_text(i)) == 7104372);
    }
    if i == 8 {
        reveal_strlit("head");
        assert(mark(builtin_text(i)) == 6840673);
    }
    if i == 9 {
        reveal_strlit("tail");
        assert(mark(builtin_text(i)) == 7629161);
    }
}

proof fn lemma_marks_from_10(i: u16)
    requires
        10 <= i < 20,
    ensures
        marked(mark(builtin_text(i))) == i,
{
    if i == 10 {
        reveal_strlit("elemAt");
        assert(mark(builtin_text(i)) == 6647105);
    }
    if i == 11 {
        reveal_strlit("elem");
        assert(mark(builtin_text(i)) == 6645093);
    }
    if i == 12 {
        reveal_strlit("filter");
        assert(mark(builtin_text(i)) == 6714469);
    }
    if i == 13 {
        reveal_strlit("any");
        assert(mark(builtin_text(i)) == 6385262);
    }
    if i == 14 {
        reveal_strlit("all");
        assert(mark(builtin_text(i)) == 6384748);
    }
    if i == 15 {
        reveal_strlit("concatLists");
        assert(mark(builtin_text(i)) == 6517876);
    }
    if i == 16 {
        reveal_strlit("concatMap");
        assert(mark(builtin_text(i)) == 6512993);
    }
    if i == 17 {
        reveal_strlit("genList");
        assert(mark(builtin_text(i)) == 6769779);
    }
    if i == 18 {
        reveal_strlit("foldl'");
        assert(mark(builtin_text(i)) == 6710380);
    }
    if i == 19 {
        reveal_strlit("sort");
        assert(mark(builtin_text(i)) == 7565938);
    }
}

proof fn lemma_marks_from_20(i: u16)
    requires
        20 <= i < 30,
    ensures
        marked(mark(builtin_text(i))) == i,
{
    if i == 20 {
        reveal_strlit("attrNames");
        assert(mark(builtin_text(i)) == 6377061);
    }
    if i == 21 {
        reveal_strlit("attrValues");
        assert(mark(builtin_text(i)) == 6381925);
    }
    if i == 22 {
        reveal_strlit("getAttr");
        assert(mark(builtin_text(i)) == 6766964);
    }
    if i == 23 {
        reveal_strlit("hasAttr");
        assert(mark(builtin_text(i)) == 6832500);
    }
    if i == 24 {
        reveal_strlit("removeAttrs");
        assert(mark(builtin_text(i)) == 7497074);
    }
    if i == 25 {
        reveal_strlit("intersectAttrs");
        assert(mark(builtin_text(i)) == 6906738);
    }
    if i == 26 {
        reveal_strlit("catAttrs");
        assert(mark(builtin_text(i)) == 6517874);
    }
    if i == 27 {
        reveal_strlit("listToAttrs");
        assert(mark(builtin_text(i)) == 7106418);
    }
    if i == 28 {
        reveal_strlit("mapAttrs");
        assert(mark(builtin_text(i)) == 7173234);
    }
    if i == 29 {
        reveal_strlit("groupBy");
        assert(mark(builtin_text(i)) == 6780226);
    }
}

proof fn lemma_marks_from_30(i: u16)
    requires
        30 <= i < 40,
    ensures
        marked(mark(builtin_text(i))) == i,
{
    if i == 30 {
        reveal_strlit("partition");
        assert(mark(builtin_text(i)) == 7367023);
    }
    if i == 31 {
        reveal_strlit("stringLength");
        assert(mark(builtin_text(i)) == 7556212);
    }
    if i == 32 {
        reveal_strlit("substring");
        assert(mark(builtin_text(i)) == 7566446);
    }
    if i == 33 {
        reveal_strlit("concatStringsSep");
        assert(mark(builtin_text(i)) == 6517349);
    }
    if i == 34 {
        reveal_strlit("replaceStrings");
        assert(mark(builtin_text(i)) == 7492455);
    }
    if i == 35 {
        reveal_strlit("splitVersion");
        assert(mark(builtin_text(i)) == 7562607);
    }
    if i == 36 {
        reveal_strlit("seq");
        assert(mark(builtin_text(i)) == 7562597);
    }
    if i == 37 {
        reveal_strlit("deepSeq");
        assert(mark(builtin_text(i)) == 6582373);
    }
    if i == 38 {
        reveal_strlit("tryEval");
        assert(mark(builtin_text(i)) == 7619937);
    }
    if i == 39 {
        reveal_strlit("functionArgs");
        assert(mark(builtin_text(i)) == 6713191);
    }
}

proof fn lemma_marks_from_40(i: u16)
    requires
        40 <= i < 50,
    ensures
        marked(mark(builtin_text(i))) == i,
{
    if i == 40 {
        reveal_strlit("typeOf");
        assert(mark(builtin_text(i)) == 7628111);
    }
    if i == 41 {
        reveal_strlit("isInt");
        assert(mark(builtin_text(i)) == 6900078);
    }
    if i == 42 {
        reveal_strlit("isFloat");
        assert(mark(builtin_text(i)) == 6909025);
    }
    if i == 43 {
        reveal_strlit("isBool");
        assert(mark(builtin_text(i)) == 6909807);
    }
    if i == 44 {
        reveal_strlit("isString");
        assert(mark(builtin_text(i)) == 6910574);
    }
    if i == 45 {
        reveal_strlit("isPath");
        assert(mark(builtin_text(i)) == 6906228);
    }
    if i == 46 {
        reveal_strlit("isList");
        assert(mark(builtin_text(i)) == 6908275);
    }
    if i == 47 {
        reveal_strlit("isAttrs");
        assert(mark(builtin_text(i)) == 6911090);
    }
    if i == 48 {
        reveal_strlit("isFunction");
        assert(mark(builtin_text(i)) == 6906735);
    }
    if i == 49 {
        reveal_strlit("add");
        assert(mark(builtin_text(i)) == 6382692);
    }
}

proof fn lemma_marks_from_50(i: u16)
    requires
        50 <= i < 60,
    ensures
        marked(mark(builtin_text(i))) == i,
{
    if i == 50 {
        reveal_strlit("sub");
        assert(mark(builtin_text(i)) == 7566709);
    }
    if i == 51 {
        reveal_strlit("mul");
        assert(mark(builtin_text(i)) == 7173493);
    }
    if i == 52 {
        reveal_strlit("div");
        assert(mark(builtin_text(i)) == 6580585);
    }
    if i == 53 {
        reveal_strlit("lessThan");
        assert(mark(builtin_text(i)) == 7099489);
    }
    if i == 54 {
        reveal_strlit("bitAnd");
        assert(mark(builtin_text(i)) == 6439278);
    }
    if i == 55 {
        reveal_strlit("bitOr");
        assert(mark(builtin_text(i)) == 6452303);
    }
    if i == 56 {
        reveal_strlit("bitXor");
        assert(mark(builtin_text(i)) == 6445167);
    }
    if i == 57 {
        reveal_strlit("floor");
        assert(mark(builtin_text(i)) == 6713199);
    }
    if i == 58 {
        reveal_strlit("ceil");
        assert(mark(builtin_text(i)) == 6515049);
    }
    if i == 59 {
        reveal_strlit("compareVersions");
        assert(mark(builtin_text(i)) == 6510190);
    }
}

proof fn lemma_marks_from_60(i: u16)
    requires
        60 <= i < 70,
    ensures
        marked(mark(builtin_text(i))) == i,
{
    if i == 60 {
        reveal_strlit("import");
        assert(mark(builtin_text(i)) == 6909810);
    }
    if i == 61 {
        reveal_strlit("readFile");
        assert(mark(builtin_text(i)) == 7489132);
    }
    if i == 62 {
        reveal_strlit("pathExists");
        assert(mark(builtin_text(i)) == 7370868);
    }
    if i == 63 {
        reveal_strlit("readDir");
        assert(mark(builtin_text(i)) == 7496809);
    }
    if i == 64 {
        reveal_strlit("readFileType");
        assert(mark(builtin_text(i)) == 7498864);
    }
    if i == 65 {
        reveal_strlit("genericClosure");
        assert(mark(builtin_text(i)) == 6767474);
    }
    if i == 66 {
        reveal_strlit("getEnv");
        assert(mark(builtin_text(i)) == 6767982);
    }
    if i == 67 {
        reveal_strlit("zipAttrsWith");
        assert(mark(builtin_text(i)) == 8024692);
    }
    if i == 68 {
        reveal_strlit("hashString");
        assert(mark(builtin_text(i)) == 6845550);
    }
    if i == 69 {
        reveal_strlit("match");
        assert(mark(builtin_text(i)) == 7173219);
    }
}

proof fn lemma_marks_from_70(i: u16)
    requires
        70 <= i < 74,
    ensures
        marked(mark(builtin_text(i))) == i,
{
    if i == 70 {
        reveal_strlit("split");
        assert(mark(builtin_text(i)) == 7564393);
    }
    if i == 71 {
        reveal_strlit("fromJSON");
        assert(mark(builtin_text(i)) == 6703695);
    }
    if i == 72 {
        reveal_strlit("fromTOML");
        assert(mark(builtin_text(i)) == 6706253);
    }
    if i == 73 {
        reveal_strlit("toJSON");
        assert(mark(builtin_text(i)) == 7623503);
    }
}

proof fn lemma_marks(i: u16)
    requires
        i < BUILTINS,
    ensures
        marked(mark(builtin_text(i))) == i,
{
    if i < 10 {
        lemma_marks_from_0(i);
    } else if i < 20 {
        lemma_marks_from_10(i);
    } else if i < 30 {
        lemma_marks_from_20(i);
    } else if i < 40 {
        lemma_marks_from_30(i);
    } else if i < 50 {
        lemma_marks_from_40(i);
    } else if i < 60 {
        lemma_marks_from_50(i);
    } else if i < 70 {
        lemma_marks_from_60(i);
    } else {
        lemma_marks_from_70(i);
    }
}

proof fn lemma_index_from(name: Seq<char>, i: u16)
    requires
        i <= BUILTINS,
    ensures
        match index_from(name, i) {
            Some(at) => i <= at < BUILTINS && builtin_text(at) == name,
            None => forall|j: u16| i <= j < BUILTINS ==> #[trigger] builtin_text(j) != name,
        },
    decreases BUILTINS - i,
{
    if i < BUILTINS && builtin_text(i) != name {
        lemma_index_from(name, (i + 1) as u16);
        if index_from(name, i) is None {
            assert forall|j: u16| i <= j < BUILTINS implies #[trigger] builtin_text(j) != name by {
                if j != i {
                    assert(i + 1 <= j);
                }
            }
        }
    }
}

/// Two builtins have two names.
pub proof fn law_builtin_names_are_distinct(i: u16, j: u16)
    requires
        i < BUILTINS,
        j < BUILTINS,
        builtin_text(i) == builtin_text(j),
    ensures
        i == j,
{
    lemma_marks(i);
    lemma_marks(j);
}

/// Looking a name up inverts the table: a name gives the position where it
/// stands and no other, and a name that stands nowhere gives none.
pub proof fn law_lookup_inverts_the_table(name: Seq<char>, i: u16)
    requires
        i < BUILTINS,
    ensures
        builtin_index(name) == Some(i) <==> builtin_text(i) == name,
        builtin_index(name) is None <==> forall|j: u16|
            j < BUILTINS ==> #[trigger] builtin_text(j) != name,
{
    lemma_index_from(name, 0);
    if builtin_text(i) == name && builtin_index(name) is Some {
        law_builtin_names_are_distinct(i, builtin_index(name)->0);
    }
}

} // verus!
