//! Capability bounds on histogram keys.
//!
//! The base bound, [`Key`], asks only for cheap duplication and an
//! executable equality test that agrees with equality of the keys'
//! mathematical views. Every histogram operation is available under it.

use vstd::prelude::*;
use vstd::string::StringExecFns;

verus! {

/// A value usable as a histogram key: duplicable by copy, with an
/// executable equality test faithful to equality of views.
///
/// Two keys are the same key exactly when their views are equal; the
/// histogram's contracts are stated over views throughout.
pub trait Key: View + Copy + Sized {
    /// Executable equality on keys, deciding equality of their views.
    fn key_eq(&self, other: &Self) -> (r: bool)
        ensures
            r <==> self@ == other@,
    ;
}

impl Key for u8 {
    fn key_eq(&self, other: &Self) -> (r: bool) {
        *self == *other
    }
}

impl Key for u16 {
    fn key_eq(&self, other: &Self) -> (r: bool) {
        *self == *other
    }
}

impl Key for u32 {
    fn key_eq(&self, other: &Self) -> (r: bool) {
        *self == *other
    }
}

impl Key for u64 {
    fn key_eq(&self, other: &Self) -> (r: bool) {
        *self == *other
    }
}

impl Key for usize {
    fn key_eq(&self, other: &Self) -> (r: bool) {
        *self == *other
    }
}

impl Key for i8 {
    fn key_eq(&self, other: &Self) -> (r: bool) {
        *self == *other
    }
}

impl Key for i16 {
    fn key_eq(&self, other: &Self) -> (r: bool) {
        *self == *other
    }
}

impl Key for i32 {
    fn key_eq(&self, other: &Self) -> (r: bool) {
        *self == *other
    }
}

impl Key for i64 {
    fn key_eq(&self, other: &Self) -> (r: bool) {
        *self == *other
    }
}

impl Key for isize {
    fn key_eq(&self, other: &Self) -> (r: bool) {
        *self == *other
    }
}

impl<'a> Key for &'a str {
    fn key_eq(&self, other: &Self) -> (r: bool) {
        let a = String::from_str(*self);
        let b = String::from_str(*other);
        a == b
    }
}

/// The stricter bound needed only by the ordered rendering: a key whose
/// views carry a total order and a textual form, both computable.
///
/// The order's laws are part of the bound, so that sorting by it is
/// meaningful for any implementation.
pub trait OrderedKey: Key {
    /// The rendering order on key views.
    spec fn le(a: Self::V, b: Self::V) -> bool;

    /// The textual form of a key view.
    spec fn text_of(v: Self::V) -> Seq<char>;

    /// The order is total.
    proof fn lemma_le_total(a: Self::V, b: Self::V)
        ensures
            Self::le(a, b) || Self::le(b, a),
    ;

    /// The order is transitive.
    proof fn lemma_le_transitive(a: Self::V, b: Self::V, c: Self::V)
        requires
            Self::le(a, b),
            Self::le(b, c),
        ensures
            Self::le(a, c),
    ;

    /// The order is antisymmetric.
    proof fn lemma_le_antisymmetric(a: Self::V, b: Self::V)
        requires
            Self::le(a, b),
            Self::le(b, a),
        ensures
            a == b,
    ;

    /// Executable comparison deciding the order on views.
    fn le_exec(&self, other: &Self) -> (r: bool)
        ensures
            r <==> Self::le(self@, other@),
    ;

    /// Executable rendering of the key's textual form.
    fn text(&self) -> (s: String)
        ensures
            s@ == Self::text_of(self@),
    ;
}

impl<'a> OrderedKey for &'a str {
    open spec fn le(a: Seq<char>, b: Seq<char>) -> bool {
        crate::text_order::lex_le(a, b)
    }

    open spec fn text_of(v: Seq<char>) -> Seq<char> {
        v
    }

    proof fn lemma_le_total(a: Seq<char>, b: Seq<char>) {
        crate::text_order::lemma_lex_le_total(a, b);
    }

    proof fn lemma_le_transitive(a: Seq<char>, b: Seq<char>, c: Seq<char>) {
        crate::text_order::lemma_lex_le_transitive(a, b, c);
    }

    proof fn lemma_le_antisymmetric(a: Seq<char>, b: Seq<char>) {
        crate::text_order::lemma_lex_le_antisymmetric(a, b);
    }

    fn le_exec(&self, other: &Self) -> (r: bool) {
        crate::text_order::str_lex_le(*self, *other)
    }

    fn text(&self) -> (s: String) {
        String::from_str(*self)
    }
}

impl OrderedKey for u8 {
    open spec fn le(a: u8, b: u8) -> bool {
        a <= b
    }

    open spec fn text_of(v: u8) -> Seq<char> {
        crate::digits::dec_digits(v as nat)
    }

    proof fn lemma_le_total(a: u8, b: u8) {
    }

    proof fn lemma_le_transitive(a: u8, b: u8, c: u8) {
    }

    proof fn lemma_le_antisymmetric(a: u8, b: u8) {
    }

    fn le_exec(&self, other: &Self) -> (r: bool) {
        *self <= *other
    }

    fn text(&self) -> (s: String) {
        crate::digits::dec_string(*self as u64)
    }
}

impl OrderedKey for u16 {
    open spec fn le(a: u16, b: u16) -> bool {
        a <= b
    }

    open spec fn text_of(v: u16) -> Seq<char> {
        crate::digits::dec_digits(v as nat)
    }

    proof fn lemma_le_total(a: u16, b: u16) {
    }

    proof fn lemma_le_transitive(a: u16, b: u16, c: u16) {
    }

    proof fn lemma_le_antisymmetric(a: u16, b: u16) {
    }

    fn le_exec(&self, other: &Self) -> (r: bool) {
        *self <= *other
    }

    fn text(&self) -> (s: String) {
        crate::digits::dec_string(*self as u64)
    }
}

impl OrderedKey for u32 {
    open spec fn le(a: u32, b: u32) -> bool {
        a <= b
    }

    open spec fn text_of(v: u32) -> Seq<char> {
        crate::digits::dec_digits(v as nat)
    }

    proof fn lemma_le_total(a: u32, b: u32) {
    }

    proof fn lemma_le_transitive(a: u32, b: u32, c: u32) {
    }

    proof fn lemma_le_antisymmetric(a: u32, b: u32) {
    }

    fn le_exec(&self, other: &Self) -> (r: bool) {
        *self <= *other
    }

    fn text(&self) -> (s: String) {
        crate::digits::dec_string(*self as u64)
    }
}

impl OrderedKey for u64 {
    open spec fn le(a: u64, b: u64) -> bool {
        a <= b
    }

    open spec fn text_of(v: u64) -> Seq<char> {
        crate::digits::dec_digits(v as nat)
    }

    proof fn lemma_le_total(a: u64, b: u64) {
    }

    proof fn lemma_le_transitive(a: u64, b: u64, c: u64) {
    }

    proof fn lemma_le_antisymmetric(a: u64, b: u64) {
    }

    fn le_exec(&self, other: &Self) -> (r: bool) {
        *self <= *other
    }

    fn text(&self) -> (s: String) {
        crate::digits::dec_string(*self)
    }
}

impl OrderedKey for usize {
    open spec fn le(a: usize, b: usize) -> bool {
        a <= b
    }

    open spec fn text_of(v: usize) -> Seq<char> {
        crate::digits::dec_digits(v as nat)
    }

    proof fn lemma_le_total(a: usize, b: usize) {
    }

    proof fn lemma_le_transitive(a: usize, b: usize, c: usize) {
    }

    proof fn lemma_le_antisymmetric(a: usize, b: usize) {
    }

    fn le_exec(&self, other: &Self) -> (r: bool) {
        *self <= *other
    }

    fn text(&self) -> (s: String) {
        crate::digits::dec_string(*self as u64)
    }
}

} // verus!
