//! A recursive-descent parser for the surface language. A program is a
//! sequence of items `Head.` or `Head :- Body.`; a body is built from
//! `=>` (loosest), `,`, `;` (tightest of the three, all right-associative),
//! the prefix `!`, the literals `true` and `false`, `if (c) (t) (e)`,
//! `forall{?X, ... -> f}`, `exists{?X, ... -> f}`, parentheses, and atomic
//! applications `Name(?X, _, ...)`. Spans are half-open character ranges.
use vstd::prelude::*;
use crate::ast::{Application, Fact, FactData, Item, Program, Span, Term};
use crate::error::{Error, ErrorKind, LowerResult};
use vstd::string::StrSliceExecFns;

verus! {

fn is_letter(b: u8) -> bool {
    (65 <= b && b <= 90) || (97 <= b && b <= 122)
}

fn is_ident_byte(b: u8) -> bool {
    is_letter(b) || (48 <= b && b <= 57)
}

/// Whether the characters of `s` are exactly those of `w`.
fn word_is(s: &String, w: &str) -> (r: bool) {
    let a = s.as_str();
    let n = a.unicode_len();
    if n != w.unicode_len() {
        return false;
    }
    let mut i: usize = 0;
    while i < n
        invariant
            n == a@.len(),
            n == w@.len(),
        decreases n - i,
    {
        if a.get_char(i) != w.get_char(i) {
            return false;
        }
        i = i + 1;
    }
    true
}

struct Parser<'a> {
    text: &'a str,
    pos: usize,
    len: usize,
}

impl<'a> Parser<'a> {
    spec fn wf(&self) -> bool {
        &&& self.text.is_ascii()
        &&& self.len == self.text@.len()
        &&& self.pos <= self.len
    }

    fn err<T>(&self) -> (r: LowerResult<T>)
        ensures
            r is Err,
    {
        Err(
            Error {
                kind: ErrorKind::Syntax,
                span: Span { lo: self.pos, hi: if self.pos < usize::MAX {
                    self.pos + 1
                } else {
                    self.pos
                } },
            },
        )
    }

    fn at(&self, i: usize) -> (r: u8)
        requires
            self.wf(),
            i < self.len,
    {
        self.text.get_ascii(i)
    }

    fn peek(&self) -> (r: Option<u8>)
        requires
            self.wf(),
        ensures
            r is Some <==> self.pos < self.len,
    {
        if self.pos < self.len {
            Some(self.at(self.pos))
        } else {
            None
        }
    }

    fn bump(&mut self)
        requires
            old(self).wf(),
            old(self).pos < old(self).len,
        ensures
            final(self).wf(),
            final(self).pos == old(self).pos + 1,
            final(self).text == old(self).text,
            final(self).len == old(self).len,
    {
        self.pos = self.pos + 1;
    }

    fn skip_ws(&mut self)
        requires
            old(self).wf(),
        ensures
            final(self).wf(),
            final(self).pos >= old(self).pos,
            final(self).text == old(self).text,
            final(self).len == old(self).len,
    {
        while self.pos < self.len
            invariant
                self.wf(),
                self.pos >= old(self).pos,
                self.text == old(self).text,
                self.len == old(self).len,
            decreases self.len - self.pos,
        {
            let b = self.at(self.pos);
            if b == 32 || b == 9 || b == 10 || b == 13 {
                self.bump();
            } else {
                return ;
            }
        }
    }

    /// Skip whitespace, then consume exactly the byte `b`.
    fn expect(&mut self, b: u8) -> (r: LowerResult<()>)
        requires
            old(self).wf(),
        ensures
            final(self).wf(),
            final(self).pos >= old(self).pos,
            final(self).text == old(self).text,
            final(self).len == old(self).len,
            r is Ok ==> final(self).pos > old(self).pos,
    {
        self.skip_ws();
        match self.peek() {
            Some(c) => {
                if c == b {
                    self.bump();
                    Ok(())
                } else {
                    self.err()
                }
            },
            None => self.err(),
        }
    }

    /// Skip whitespace, then read a nonempty alphanumeric word.
    fn parse_ident(&mut self) -> (r: LowerResult<(Span, String)>)
        requires
            old(self).wf(),
        ensures
            final(self).wf(),
            final(self).pos >= old(self).pos,
            final(self).text == old(self).text,
            final(self).len == old(self).len,
            r is Ok ==> final(self).pos > old(self).pos,
    {
        self.skip_ws();
        let start = self.pos;
        while self.pos < self.len
            invariant
                self.wf(),
                self.pos >= start,
                start >= old(self).pos,
                self.text == old(self).text,
                self.len == old(self).len,
            decreases self.len - self.pos,
        {
            if is_ident_byte(self.at(self.pos)) {
                self.bump();
            } else {
                break ;
            }
        }
        if self.pos == start {
            return self.err();
        }
        let word = self.text.substring_ascii(start, self.pos);
        Ok((Span { lo: start, hi: self.pos }, word.to_owned()))
    }

    /// One argument: `?Name` or `_`.
    fn parse_term(&mut self) -> (r: LowerResult<Term>)
        requires
            old(self).wf(),
        ensures
            final(self).wf(),
            final(self).pos >= old(self).pos,
            final(self).text == old(self).text,
            final(self).len == old(self).len,
            r is Ok ==> final(self).pos > old(self).pos,
    {
        self.skip_ws();
        match self.peek() {
            Some(b) => {
                if b == 63 {  // '?'
                    let qlo = self.pos;
                    self.bump();
                    match self.parse_ident() {
                        Ok((sp, name)) => Ok(Term::Var(Span { lo: qlo, hi: sp.hi }, name)),
                        Err(e) => Err(e),
                    }
                } else if b == 95 {  // '_'
                    self.bump();
                    Ok(Term::Wildcard)
                } else {
                    self.err()
                }
            },
            None => self.err(),
        }
    }

    /// The rest of an application whose name was already read: an optional
    /// parenthesized argument list.
    fn parse_application_args(&mut self, name_span: Span, name: String) -> (r: LowerResult<
        Application,
    >)
        requires
            old(self).wf(),
        ensures
            final(self).wf(),
            final(self).pos >= old(self).pos,
            final(self).text == old(self).text,
            final(self).len == old(self).len,
    {
        let mut terms: Vec<Term> = Vec::new();
        self.skip_ws();
        let opener = self.peek();
        let has_args = match opener {
            Some(b) => b == 40,  // '('
            None => false,
        };
        if has_args {
            {
                self.bump();
                self.skip_ws();
                match self.peek() {
                    Some(c) => {
                        if c == 41 {  // ')'
                            self.bump();
                            return Ok(
                                Application {
                                    span: Span { lo: name_span.lo, hi: self.pos },
                                    name,
                                    terms,
                                },
                            );
                        }
                    },
                    None => {},
                }
                loop
                    invariant
                        self.wf(),
                        self.text == old(self).text,
                        self.len == old(self).len,
                        self.pos >= old(self).pos,
                    decreases self.len - self.pos,
                {
                    let t = match self.parse_term() {
                        Ok(t) => t,
                        Err(e) => {
                            return Err(e);
                        },
                    };
                    terms.push(t);
                    self.skip_ws();
                    match self.peek() {
                        Some(c) => {
                            if c == 44 {  // ','
                                self.bump();
                            } else if c == 41 {  // ')'
                                self.bump();
                                return Ok(
                                    Application {
                                        span: Span { lo: name_span.lo, hi: self.pos },
                                        name,
                                        terms,
                                    },
                                );
                            } else {
                                return self.err();
                            }
                        },
                        None => {
                            return self.err();
                        },
                    }
                }
            }
        } else {
            Ok(Application { span: name_span, name, terms })
        }
    }

    /// A full application: a name and its optional argument list.
    fn parse_application(&mut self) -> (r: LowerResult<Application>)
        requires
            old(self).wf(),
        ensures
            final(self).wf(),
            final(self).pos >= old(self).pos,
            final(self).text == old(self).text,
            final(self).len == old(self).len,
            r is Ok ==> final(self).pos > old(self).pos,
    {
        let (sp, name) = match self.parse_ident() {
            Ok(x) => x,
            Err(e) => {
                return Err(e);
            },
        };
        self.parse_application_args(sp, name)
    }

    /// A quantified fact `forall{?X, ?Y -> f}` (or `exists`), desugared to
    /// one nested binder per variable, outermost first.
    fn parse_quantified(&mut self, lo: usize, universal: bool) -> (r: LowerResult<Fact>)
        requires
            old(self).wf(),
        ensures
            final(self).wf(),
            final(self).pos >= old(self).pos,
            final(self).text == old(self).text,
            final(self).len == old(self).len,
        decreases old(self).len - old(self).pos, 4int,
    {
        match self.expect(123) {  // '{'
            Ok(_) => {},
            Err(e) => {
                return Err(e);
            },
        }
        let mut vars: Vec<String> = Vec::new();
        loop
            invariant
                self.wf(),
                self.text == old(self).text,
                self.len == old(self).len,
                self.pos > old(self).pos,
            decreases self.len - self.pos,
        {
            match self.expect(63) {  // '?'
                Ok(_) => {},
                Err(e) => {
                    return Err(e);
                },
            }
            let (_, name) = match self.parse_ident() {
                Ok(x) => x,
                Err(e) => {
                    return Err(e);
                },
            };
            vars.push(name);
            self.skip_ws();
            let sep = self.peek();
            let more = match sep {
                Some(c) => c == 44,  // ','
                None => false,
            };
            if more {
                self.bump();
            } else {
                break ;
            }
        }
        match self.expect(45) {  // '-'
            Ok(_) => {},
            Err(e) => {
                return Err(e);
            },
        }
        match self.expect(62) {  // '>'
            Ok(_) => {},
            Err(e) => {
                return Err(e);
            },
        }
        let body = match self.parse_fact() {
            Ok(f) => f,
            Err(e) => {
                return Err(e);
            },
        };
        match self.expect(125) {  // '}'
            Ok(_) => {},
            Err(e) => {
                return Err(e);
            },
        }
        let hi = self.pos;
        let mut f = body;
        let mut i = vars.len();
        while i > 0
            invariant
                i <= vars@.len(),
            decreases i,
        {
            i = i - 1;
            let v = vars[i].clone();
            f = Fact {
                span: Span { lo, hi },
                data: if universal {
                    FactData::ForAll(v, Box::new(f))
                } else {
                    FactData::Exists(v, Box::new(f))
                },
            };
        }
        Ok(f)
    }

    /// An atomic fact: negation, parentheses, a literal, a conditional, a
    /// quantifier, or an application.
    fn parse_unary(&mut self) -> (r: LowerResult<Fact>)
        requires
            old(self).wf(),
        ensures
            final(self).wf(),
            final(self).pos >= old(self).pos,
            final(self).text == old(self).text,
            final(self).len == old(self).len,
            r is Ok ==> final(self).pos > old(self).pos,
        decreases old(self).len - old(self).pos, 5int,
    {
        self.skip_ws();
        let lo = self.pos;
        match self.peek() {
            Some(b) => {
                if b == 33 {  // '!'
                self.bump();
                let f = match self.parse_unary() {
                    Ok(f) => f,
                    Err(e) => {
                        return Err(e);
                    },
                };
                Ok(Fact { span: Span { lo, hi: self.pos }, data: FactData::Not(Box::new(f)) })
                } else if b == 40 {  // '('
                self.bump();
                let f = match self.parse_fact() {
                    Ok(f) => f,
                    Err(e) => {
                        return Err(e);
                    },
                };
                match self.expect(41) {  // ')'
                    Ok(_) => Ok(f),
                    Err(e) => Err(e),
                }
                } else if is_letter(b) {
                let (sp, name) = match self.parse_ident() {
                    Ok(x) => x,
                    Err(e) => {
                        return Err(e);
                    },
                };
                if word_is(&name, "forall") {
                    self.parse_quantified(lo, true)
                } else if word_is(&name, "exists") {
                    self.parse_quantified(lo, false)
                } else if word_is(&name, "true") {
                    Ok(Fact { span: sp, data: FactData::True })
                } else if word_is(&name, "false") {
                    Ok(Fact { span: sp, data: FactData::False })
                } else if word_is(&name, "if") {
                    self.parse_conditional(lo)
                } else {
                    match self.parse_application_args(sp, name) {
                        Ok(a) => Ok(Fact { span: a.span, data: FactData::Apply(a) }),
                        Err(e) => Err(e),
                    }
                }
                } else {
                    self.err()
                }
            },
            None => self.err(),
        }
    }

    /// The rest of `if (c) (t) (e)` after the word `if`.
    fn parse_conditional(&mut self, lo: usize) -> (r: LowerResult<Fact>)
        requires
            old(self).wf(),
        ensures
            final(self).wf(),
            final(self).pos >= old(self).pos,
            final(self).text == old(self).text,
            final(self).len == old(self).len,
        decreases old(self).len - old(self).pos, 4int,
    {
        match self.expect(40) {  // '('
            Ok(_) => {},
            Err(e) => {
                return Err(e);
            },
        }
        let c = match self.parse_fact() {
            Ok(f) => f,
            Err(e) => {
                return Err(e);
            },
        };
        match self.expect(41) {  // ')'
            Ok(_) => {},
            Err(e) => {
                return Err(e);
            },
        }
        match self.expect(40) {  // '('
            Ok(_) => {},
            Err(e) => {
                return Err(e);
            },
        }
        let t = match self.parse_fact() {
            Ok(f) => f,
            Err(e) => {
                return Err(e);
            },
        };
        match self.expect(41) {  // ')'
            Ok(_) => {},
            Err(e) => {
                return Err(e);
            },
        }
        match self.expect(40) {  // '('
            Ok(_) => {},
            Err(e) => {
                return Err(e);
            },
        }
        let e = match self.parse_fact() {
            Ok(f) => f,
            Err(e) => {
                return Err(e);
            },
        };
        match self.expect(41) {  // ')'
            Ok(_) => {},
            Err(e) => {
                return Err(e);
            },
        }
        Ok(
            Fact {
                span: Span { lo, hi: self.pos },
                data: FactData::IfThenElse(Box::new(c), Box::new(t), Box::new(e)),
            },
        )
    }

    /// Disjunctions: `u ; or`, right-associative.
    fn parse_or(&mut self) -> (r: LowerResult<Fact>)
        requires
            old(self).wf(),
        ensures
            final(self).wf(),
            final(self).pos >= old(self).pos,
            final(self).text == old(self).text,
            final(self).len == old(self).len,
            r is Ok ==> final(self).pos > old(self).pos,
        decreases old(self).len - old(self).pos, 6int,
    {
        let lhs = match self.parse_unary() {
            Ok(f) => f,
            Err(e) => {
                return Err(e);
            },
        };
        self.skip_ws();
        let sep = self.peek();
        let more = match sep {
            Some(b) => b == 59,  // ';'
            None => false,
        };
        if more {
            {
                self.bump();
                let rhs = match self.parse_or() {
                    Ok(f) => f,
                    Err(e) => {
                        return Err(e);
                    },
                };
                Ok(
                    Fact {
                        span: Span { lo: lhs.span.lo, hi: rhs.span.hi },
                        data: FactData::Or(Box::new(lhs), Box::new(rhs)),
                    },
                )
            }
        } else {
            Ok(lhs)
        }
    }

    /// Conjunctions: `or , and`, right-associative; `;` binds tighter.
    fn parse_and(&mut self) -> (r: LowerResult<Fact>)
        requires
            old(self).wf(),
        ensures
            final(self).wf(),
            final(self).pos >= old(self).pos,
            final(self).text == old(self).text,
            final(self).len == old(self).len,
            r is Ok ==> final(self).pos > old(self).pos,
        decreases old(self).len - old(self).pos, 7int,
    {
        let lhs = match self.parse_or() {
            Ok(f) => f,
            Err(e) => {
                return Err(e);
            },
        };
        self.skip_ws();
        let sep = self.peek();
        let more = match sep {
            Some(b) => b == 44,  // ','
            None => false,
        };
        if more {
            {
                self.bump();
                let rhs = match self.parse_and() {
                    Ok(f) => f,
                    Err(e) => {
                        return Err(e);
                    },
                };
                Ok(
                    Fact {
                        span: Span { lo: lhs.span.lo, hi: rhs.span.hi },
                        data: FactData::And(Box::new(lhs), Box::new(rhs)),
                    },
                )
            }
        } else {
            Ok(lhs)
        }
    }

    /// A full fact: `and => fact`, right-associative, loosest.
    fn parse_fact(&mut self) -> (r: LowerResult<Fact>)
        requires
            old(self).wf(),
        ensures
            final(self).wf(),
            final(self).pos >= old(self).pos,
            final(self).text == old(self).text,
            final(self).len == old(self).len,
            r is Ok ==> final(self).pos > old(self).pos,
        decreases old(self).len - old(self).pos, 8int,
    {
        let lhs = match self.parse_and() {
            Ok(f) => f,
            Err(e) => {
                return Err(e);
            },
        };
        self.skip_ws();
        let sep = self.peek();
        let more = match sep {
            Some(b) => b == 61,  // '='
            None => false,
        };
        if more {
            {
                self.bump();
                match self.expect(62) {  // '>'
                    Ok(_) => {},
                    Err(e) => {
                        return Err(e);
                    },
                }
                let rhs = match self.parse_fact() {
                    Ok(f) => f,
                    Err(e) => {
                        return Err(e);
                    },
                };
                Ok(
                    Fact {
                        span: Span { lo: lhs.span.lo, hi: rhs.span.hi },
                        data: FactData::Implication(Box::new(lhs), Box::new(rhs)),
                    },
                )
            }
        } else {
            Ok(lhs)
        }
    }

    /// One item: `Head.` or `Head :- Body.`.
    fn parse_item(&mut self) -> (r: LowerResult<Item>)
        requires
            old(self).wf(),
        ensures
            final(self).wf(),
            final(self).pos >= old(self).pos,
            final(self).text == old(self).text,
            final(self).len == old(self).len,
            r is Ok ==> final(self).pos > old(self).pos,
    {
        self.skip_ws();
        let lo = self.pos;
        let head = match self.parse_application() {
            Ok(a) => a,
            Err(e) => {
                return Err(e);
            },
        };
        self.skip_ws();
        let sep = self.peek();
        let has_body = match sep {
            Some(b) => b == 58,  // ':'
            None => false,
        };
        let body = if has_body {
            {
                self.bump();
                match self.expect(45) {  // '-'
                    Ok(_) => {},
                    Err(e) => {
                        return Err(e);
                    },
                }
                match self.parse_fact() {
                    Ok(f) => Some(f),
                    Err(e) => {
                        return Err(e);
                    },
                }
            }
        } else {
            None
        };
        match self.expect(46) {  // '.'
            Ok(_) => {},
            Err(e) => {
                return Err(e);
            },
        }
        Ok(Item { span: Span { lo, hi: self.pos }, head, body })
    }
}

/// Parse a whole program: items until the end of the text. Only ASCII
/// text is accepted.
pub fn parse_program(text: &str) -> (r: LowerResult<Program>)
{
    if !text.is_ascii() {
        return Err(Error { kind: ErrorKind::Syntax, span: Span { lo: 0, hi: 0 } });
    }
    let len = text.unicode_len();
    let mut p = Parser { text, pos: 0, len };
    let mut items: Vec<Item> = Vec::new();
    loop
        invariant
            p.wf(),
        decreases p.len - p.pos,
    {
        p.skip_ws();
        if p.pos >= p.len {
            return Ok(Program { items });
        }
        match p.parse_item() {
            Ok(it) => {
                items.push(it);
            },
            Err(e) => {
                return Err(e);
            },
        }
    }
}

} // verus!
