//! Builtins that are one of a family: each hands its arguments to what the
//! family does.
use crate::lang::frames::{Begin, Cont, Finish, Need};
use crate::lang::heap::{Fault, Heap, HeapView};
use crate::lang::lists::{Arith, Bits, Started};
use vstd::prelude::*;

verus! {

impl HeapView {
    /// Whether some element passes.
    pub open spec fn bi_any(self, args: usize) -> Started {
        self.any_all(args, true)
    }

    /// Whether every element passes.
    pub open spec fn bi_all(self, args: usize) -> Started {
        self.any_all(args, false)
    }

    /// The values of one name in a list of sets.
    pub open spec fn bi_cat_attrs(self, args: usize) -> Started {
        self.str_then_each(args, Finish::CatAttrs)
    }

    /// A list of strings, joined.
    pub open spec fn bi_concat_strings_sep(self, args: usize) -> Started {
        self.str_then_each(args, Finish::ConcatSep)
    }

    /// A sum.
    pub open spec fn bi_add(self, args: usize) -> Started {
        self.num_op(args, Arith::Add)
    }

    /// A difference.
    pub open spec fn bi_sub(self, args: usize) -> Started {
        self.num_op(args, Arith::Sub)
    }

    /// A product.
    pub open spec fn bi_mul(self, args: usize) -> Started {
        self.num_op(args, Arith::Mul)
    }

    /// A quotient.
    pub open spec fn bi_div(self, args: usize) -> Started {
        self.num_op(args, Arith::Div)
    }

    /// The bits that both have.
    pub open spec fn bi_bit_and(self, args: usize) -> Started {
        self.bit_op(args, Bits::And)
    }

    /// The bits that either has.
    pub open spec fn bi_bit_or(self, args: usize) -> Started {
        self.bit_op(args, Bits::Or)
    }

    /// The bits that one of them has.
    pub open spec fn bi_bit_xor(self, args: usize) -> Started {
        self.bit_op(args, Bits::Xor)
    }

    /// A number rounded down.
    pub open spec fn bi_floor(self, args: usize) -> Started {
        self.bi_round(args, false)
    }

    /// A number rounded up.
    pub open spec fn bi_ceil(self, args: usize) -> Started {
        self.bi_round(args, true)
    }

    /// Guards an expression.
    pub open spec fn bi_try_eval(self, args: usize) -> Started {
        (self, Ok(Begin::Cont(Cont::TryEval { started: false })))
    }

    /// Imports a file.
    pub open spec fn bi_import(self, args: usize) -> Started {
        (self, Ok(Begin::Cont(Cont::Import { stage: 0 })))
    }

    /// The text of a file.
    pub open spec fn bi_read_file(self, args: usize) -> Started {
        self.ask_path(args, |p: usize| Need::Contents(p))
    }

    /// Whether a path exists.
    pub open spec fn bi_path_exists(self, args: usize) -> Started {
        self.ask_path(args, |p: usize| Need::Exists(p))
    }

    /// The entries of a directory.
    pub open spec fn bi_read_dir(self, args: usize) -> Started {
        self.ask_path(args, |p: usize| Need::Entries(p))
    }

    /// What a path is.
    pub open spec fn bi_read_file_type(self, args: usize) -> Started {
        self.ask_path(args, |p: usize| Need::Kind(p))
    }

    /// A variable of the environment.
    pub open spec fn bi_get_env(self, args: usize) -> Started {
        self.ask_str(args, |p: usize| Need::Env(p))
    }

    /// The value of a JSON text.
    pub open spec fn bi_from_json(self, args: usize) -> Started {
        self.ask_str(args, |p: usize| Need::Json(p))
    }

    /// The value of a TOML text.
    pub open spec fn bi_from_toml(self, args: usize) -> Started {
        self.ask_str(args, |p: usize| Need::Toml(p))
    }
}

impl Heap {
    /// Whether some element passes.
    pub fn bi_any(&mut self, args: usize) -> (r: Result<Begin, Fault>)
        ensures
            old(self)@.bi_any(args) == (final(self)@, r),
    {
        self.any_all(args, true)
    }

    /// Whether every element passes.
    pub fn bi_all(&mut self, args: usize) -> (r: Result<Begin, Fault>)
        ensures
            old(self)@.bi_all(args) == (final(self)@, r),
    {
        self.any_all(args, false)
    }

    /// The values of one name in a list of sets.
    pub fn bi_cat_attrs(&mut self, args: usize) -> (r: Result<Begin, Fault>)
        ensures
            old(self)@.bi_cat_attrs(args) == (final(self)@, r),
    {
        self.str_then_each(args, Finish::CatAttrs)
    }

    /// A list of strings, joined.
    pub fn bi_concat_strings_sep(&mut self, args: usize) -> (r: Result<Begin, Fault>)
        ensures
            old(self)@.bi_concat_strings_sep(args) == (final(self)@, r),
    {
        self.str_then_each(args, Finish::ConcatSep)
    }

    /// A sum.
    pub fn bi_add(&mut self, args: usize) -> (r: Result<Begin, Fault>)
        ensures
            old(self)@.bi_add(args) == (final(self)@, r),
    {
        self.num_op(args, Arith::Add)
    }

    /// A difference.
    pub fn bi_sub(&mut self, args: usize) -> (r: Result<Begin, Fault>)
        ensures
            old(self)@.bi_sub(args) == (final(self)@, r),
    {
        self.num_op(args, Arith::Sub)
    }

    /// A product.
    pub fn bi_mul(&mut self, args: usize) -> (r: Result<Begin, Fault>)
        ensures
            old(self)@.bi_mul(args) == (final(self)@, r),
    {
        self.num_op(args, Arith::Mul)
    }

    /// A quotient.
    pub fn bi_div(&mut self, args: usize) -> (r: Result<Begin, Fault>)
        ensures
            old(self)@.bi_div(args) == (final(self)@, r),
    {
        self.num_op(args, Arith::Div)
    }

    /// The bits that both have.
    pub fn bi_bit_and(&mut self, args: usize) -> (r: Result<Begin, Fault>)
        ensures
            old(self)@.bi_bit_and(args) == (final(self)@, r),
    {
        self.bit_op(args, Bits::And)
    }

    /// The bits that either has.
    pub fn bi_bit_or(&mut self, args: usize) -> (r: Result<Begin, Fault>)
        ensures
            old(self)@.bi_bit_or(args) == (final(self)@, r),
    {
        self.bit_op(args, Bits::Or)
    }

    /// The bits that one of them has.
    pub fn bi_bit_xor(&mut self, args: usize) -> (r: Result<Begin, Fault>)
        ensures
            old(self)@.bi_bit_xor(args) == (final(self)@, r),
    {
        self.bit_op(args, Bits::Xor)
    }

    /// A number rounded down.
    pub fn bi_floor(&mut self, args: usize) -> (r: Result<Begin, Fault>)
        ensures
            old(self)@.bi_floor(args) == (final(self)@, r),
    {
        self.bi_round(args, false)
    }

    /// A number rounded up.
    pub fn bi_ceil(&mut self, args: usize) -> (r: Result<Begin, Fault>)
        ensures
            old(self)@.bi_ceil(args) == (final(self)@, r),
    {
        self.bi_round(args, true)
    }

    /// Guards an expression.
    pub fn bi_try_eval(&mut self, args: usize) -> (r: Result<Begin, Fault>)
        ensures
            old(self)@.bi_try_eval(args) == (final(self)@, r),
    {
        Ok(Begin::Cont(Cont::TryEval { started: false }))
    }

    /// Imports a file.
    pub fn bi_import(&mut self, args: usize) -> (r: Result<Begin, Fault>)
        ensures
            old(self)@.bi_import(args) == (final(self)@, r),
    {
        Ok(Begin::Cont(Cont::Import { stage: 0 }))
    }

    /// The text of a file.
    pub fn bi_read_file(&mut self, args: usize) -> (r: Result<Begin, Fault>)
        ensures
            old(self)@.bi_read_file(args) == (final(self)@, r),
    {
        match self.arg_path(args) {
            Err(e) => Err(e),
            Ok(p) => Ok(Begin::Cont(Cont::Ask { asked: false, need: Need::Contents(p) })),
        }
    }

    /// Whether a path exists.
    pub fn bi_path_exists(&mut self, args: usize) -> (r: Result<Begin, Fault>)
        ensures
            old(self)@.bi_path_exists(args) == (final(self)@, r),
    {
        match self.arg_path(args) {
            Err(e) => Err(e),
            Ok(p) => Ok(Begin::Cont(Cont::Ask { asked: false, need: Need::Exists(p) })),
        }
    }

    /// The entries of a directory.
    pub fn bi_read_dir(&mut self, args: usize) -> (r: Result<Begin, Fault>)
        ensures
            old(self)@.bi_read_dir(args) == (final(self)@, r),
    {
        match self.arg_path(args) {
            Err(e) => Err(e),
            Ok(p) => Ok(Begin::Cont(Cont::Ask { asked: false, need: Need::Entries(p) })),
        }
    }

    /// What a path is.
    pub fn bi_read_file_type(&mut self, args: usize) -> (r: Result<Begin, Fault>)
        ensures
            old(self)@.bi_read_file_type(args) == (final(self)@, r),
    {
        match self.arg_path(args) {
            Err(e) => Err(e),
            Ok(p) => Ok(Begin::Cont(Cont::Ask { asked: false, need: Need::Kind(p) })),
        }
    }

    /// A variable of the environment.
    pub fn bi_get_env(&mut self, args: usize) -> (r: Result<Begin, Fault>)
        ensures
            old(self)@.bi_get_env(args) == (final(self)@, r),
    {
        match self.arg_str(args, 0) {
            Err(e) => Err(e),
            Ok(p) => Ok(Begin::Cont(Cont::Ask { asked: false, need: Need::Env(p) })),
        }
    }

    /// The value of a JSON text.
    pub fn bi_from_json(&mut self, args: usize) -> (r: Result<Begin, Fault>)
        ensures
            old(self)@.bi_from_json(args) == (final(self)@, r),
    {
        match self.arg_str(args, 0) {
            Err(e) => Err(e),
            Ok(p) => Ok(Begin::Cont(Cont::Ask { asked: false, need: Need::Json(p) })),
        }
    }

    /// The value of a TOML text.
    pub fn bi_from_toml(&mut self, args: usize) -> (r: Result<Begin, Fault>)
        ensures
            old(self)@.bi_from_toml(args) == (final(self)@, r),
    {
        match self.arg_str(args, 0) {
            Err(e) => Err(e),
            Ok(p) => Ok(Begin::Cont(Cont::Ask { asked: false, need: Need::Toml(p) })),
        }
    }
}

} // verus!
