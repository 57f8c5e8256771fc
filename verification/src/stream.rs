//! A named piece of source text.

use vstd::prelude::*;
use crate::expr::Expr;

verus! {

/// A piece of source text and the expression that names it.
#[derive(Debug)]
pub struct Stream {
    pub name: Expr,
    pub content: String,
}

impl Clone for Stream {
    /// A copy with the same name and text.
    fn clone(&self) -> (r: Self)
        ensures
            r.name@ == self.name@,
            r.content@ == self.content@,
    {
        Self { name: self.name.clone(), content: self.content.clone() }
    }
}

impl Stream {
    /// The text `content` under the name `name`.
    pub fn new(name: Expr, content: String) -> (s: Self)
        ensures
            s.name == name,
            s.content == content,
    {
        Self { name, content }
    }

    /// The name.
    pub fn name(&self) -> (n: &Expr)
        ensures
            *n == self.name,
    {
        &self.name
    }

    /// The text.
    pub fn content(&self) -> (c: &String)
        ensures
            *c == self.content,
    {
        &self.content
    }
}

} // verus!
