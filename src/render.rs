//! Values that can stand in a placeholder: anything with a text form.
use vstd::prelude::*;
use vstd::string::StringExecFns;
use crate::text::{string_with_capacity, push_char};

verus! {

/// A value with a text form, substituted for a placeholder.
pub trait Render {
    /// The text form of the value.
    spec fn rendered(&self) -> Seq<char>;

    /// Produces the text form of the value.
    fn render(&self) -> (r: String)
        ensures
            r@ == self.rendered(),
    ;
}

/// The decimal digit for `d`, which is below ten.
pub open spec fn digit_char(d: nat) -> char {
    if d == 0 { '0' }
    else if d == 1 { '1' }
    else if d == 2 { '2' }
    else if d == 3 { '3' }
    else if d == 4 { '4' }
    else if d == 5 { '5' }
    else if d == 6 { '6' }
    else if d == 7 { '7' }
    else if d == 8 { '8' }
    else { '9' }
}

/// The decimal form of `n`: most significant digit first, no leading zeros.
pub open spec fn decimal(n: nat) -> Seq<char>
    decreases n,
{
    if n < 10 {
        seq![digit_char(n)]
    } else {
        decimal(n / 10).push(digit_char(n % 10))
    }
}

/// The decimal form of a signed integer: a minus sign before negatives.
pub open spec fn signed_decimal(n: int) -> Seq<char> {
    if n < 0 {
        seq!['-'] + decimal((-n) as nat)
    } else {
        decimal(n as nat)
    }
}

fn digit(d: u64) -> (c: char)
    requires
        d < 10,
    ensures
        c == digit_char(d as nat),
{
    if d == 0 { '0' }
    else if d == 1 { '1' }
    else if d == 2 { '2' }
    else if d == 3 { '3' }
    else if d == 4 { '4' }
    else if d == 5 { '5' }
    else if d == 6 { '6' }
    else if d == 7 { '7' }
    else if d == 8 { '8' }
    else { '9' }
}

/// The decimal form of `n`.
pub fn decimal_string(n: u64) -> (r: String)
    ensures
        r@ == decimal(n as nat),
    decreases n,
{
    if n < 10 {
        let mut s = string_with_capacity(1);
        push_char(&mut s, digit(n));
        s
    } else {
        let mut s = decimal_string(n / 10);
        push_char(&mut s, digit(n % 10));
        s
    }
}

/// The decimal form of `n`, with a minus sign if it is negative.
pub fn signed_decimal_string(n: i64) -> (r: String)
    ensures
        r@ == signed_decimal(n as int),
{
    if n < 0 {
        let m: u64 = (0i128 - n as i128) as u64;
        let digits = decimal_string(m);
        let mut s = string_with_capacity(21);
        push_char(&mut s, '-');
        s.append(digits.as_str());
        s
    } else {
        decimal_string(n as u64)
    }
}

impl Render for String {
    open spec fn rendered(&self) -> Seq<char> {
        self@
    }

    fn render(&self) -> (r: String) {
        self.clone()
    }
}

impl<'a> Render for &'a str {
    open spec fn rendered(&self) -> Seq<char> {
        (*self)@
    }

    fn render(&self) -> (r: String) {
        String::from_str(*self)
    }
}

impl Render for char {
    open spec fn rendered(&self) -> Seq<char> {
        seq![*self]
    }

    fn render(&self) -> (r: String) {
        let mut s = string_with_capacity(4);
        push_char(&mut s, *self);
        s
    }
}

impl Render for bool {
    open spec fn rendered(&self) -> Seq<char> {
        if *self {
            seq!['t', 'r', 'u', 'e']
        } else {
            seq!['f', 'a', 'l', 's', 'e']
        }
    }

    fn render(&self) -> (r: String) {
        let mut s = string_with_capacity(5);
        if *self {
            push_char(&mut s, 't');
            push_char(&mut s, 'r');
            push_char(&mut s, 'u');
            push_char(&mut s, 'e');
        } else {
            push_char(&mut s, 'f');
            push_char(&mut s, 'a');
            push_char(&mut s, 'l');
            push_char(&mut s, 's');
            push_char(&mut s, 'e');
        }
        s
    }
}

impl Render for u32 {
    open spec fn rendered(&self) -> Seq<char> {
        decimal(*self as nat)
    }

    fn render(&self) -> (r: String) {
        decimal_string(*self as u64)
    }
}

impl Render for u64 {
    open spec fn rendered(&self) -> Seq<char> {
        decimal(*self as nat)
    }

    fn render(&self) -> (r: String) {
        decimal_string(*self)
    }
}

impl Render for usize {
    open spec fn rendered(&self) -> Seq<char> {
        decimal(*self as nat)
    }

    fn render(&self) -> (r: String) {
        decimal_string(*self as u64)
    }
}

impl Render for i32 {
    open spec fn rendered(&self) -> Seq<char> {
        signed_decimal(*self as int)
    }

    fn render(&self) -> (r: String) {
        signed_decimal_string(*self as i64)
    }
}

impl Render for i64 {
    open spec fn rendered(&self) -> Seq<char> {
        signed_decimal(*self as int)
    }

    fn render(&self) -> (r: String) {
        signed_decimal_string(*self)
    }
}

} // verus!
