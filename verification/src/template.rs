//! The page-template tokenizer: template text is literal fragments
//! interleaved with `{name}` placeholders. A `{toc}` or `{content}`
//! placeholder records its character column within its line as the base
//! indentation for rendering. An unrecognized `{name}` placeholder is a
//! fatal configuration error.

use vstd::prelude::*;

use crate::data::Elem;
use crate::data::ElemV;
use crate::data::elems_view;
use crate::text::chars_of;
use crate::text::push_char;
use crate::text::string_from_range;
use vstd::string::StringExecFns;

verus! {

/// An unrecognized `{name}` placeholder in the template, carrying the name.
#[derive(Debug, PartialEq)]
pub enum ConfigError {
    UnknownPlaceholder(String),
}

/// A lower-case ASCII letter, the only characters allowed in a placeholder
/// name.
pub open spec fn is_lower(c: char) -> bool {
    97 <= c as u32 <= 122
}

/// The first position at or after `i` whose character is not a lower-case
/// letter (or the end of the text).
pub open spec fn lower_run_end(s: Seq<char>, i: int) -> int
    decreases s.len() - i,
{
    if i < 0 || i >= s.len() {
        s.len() as int
    } else if is_lower(s[i]) {
        lower_run_end(s, i + 1)
    } else {
        i
    }
}

/// Whether a `{name}` placeholder (with a nonempty lower-case name) starts
/// at position `i`.
pub open spec fn placeholder_at(s: Seq<char>, i: int) -> bool {
    &&& 0 <= i < s.len()
    &&& s[i] == '{'
    &&& lower_run_end(s, i + 1) > i + 1
    &&& lower_run_end(s, i + 1) < s.len()
    &&& s[lower_run_end(s, i + 1)] == '}'
}

/// The token for the placeholder name `name` recorded at column `col`, or
/// nothing when the name is not recognized.
pub open spec fn placeholder_token(name: Seq<char>, col: int) -> Option<ElemV> {
    if name == "title"@ {
        Option::Some(ElemV::Title)
    } else if name == "year"@ {
        Option::Some(ElemV::Year)
    } else if name == "month"@ {
        Option::Some(ElemV::Month)
    } else if name == "day"@ {
        Option::Some(ElemV::Day)
    } else if name == "hour"@ {
        Option::Some(ElemV::Hour)
    } else if name == "minute"@ {
        Option::Some(ElemV::Minute)
    } else if name == "second"@ {
        Option::Some(ElemV::Second)
    } else if name == "toc"@ {
        Option::Some(ElemV::Toc(col))
    } else if name == "content"@ {
        Option::Some(ElemV::Content(col))
    } else {
        Option::None
    }
}

/// The literal fragment `lit` as a token sequence: nothing when it is empty.
pub open spec fn lit_toks(lit: Seq<char>) -> Seq<ElemV> {
    if lit.len() == 0 {
        Seq::empty()
    } else {
        seq![ElemV::Str(lit)]
    }
}

/// The token sequence of the template text from position `i` on, where `col`
/// is the character column of position `i` within its line and `lit` is the
/// literal run accumulated so far; nothing on an unrecognized placeholder.
pub open spec fn template_toks(s: Seq<char>, i: int, col: int, lit: Seq<char>) -> Option<
    Seq<ElemV>,
>
    decreases s.len() - i,
{
    if i < 0 || i >= s.len() {
        Option::Some(lit_toks(lit))
    } else if placeholder_at(s, i) {
        let j = lower_run_end(s, i + 1);
        match placeholder_token(s.subrange(i + 1, j), col) {
            Option::None => Option::None,
            Option::Some(t) => match template_toks(s, j + 1, col + (j + 1 - i), Seq::empty()) {
                Option::None => Option::None,
                Option::Some(rest) => Option::Some(lit_toks(lit) + seq![t] + rest),
            },
        }
    } else if s[i] == '\n' {
        template_toks(s, i + 1, 0, lit.push(s[i]))
    } else {
        template_toks(s, i + 1, col + 1, lit.push(s[i]))
    }
}

/// The token sequence of a whole template, or nothing on an unrecognized
/// placeholder.
pub open spec fn template_spec(s: Seq<char>) -> Option<Seq<ElemV>> {
    template_toks(s, 0, 0, Seq::empty())
}

/// Whether `c` is a lower-case ASCII letter.
fn is_lower_exec(c: char) -> (r: bool)
    ensures
        r == is_lower(c),
{
    let u = c as u32;
    97 <= u && u <= 122
}

/// The end of the lower-case run starting at `i`.
fn lower_run_end_exec(v: &Vec<char>, i: usize) -> (r: usize)
    requires
        i <= v@.len(),
    ensures
        r == lower_run_end(v@, i as int),
        i <= r <= v@.len(),
    decreases v@.len() - i,
{
    if i == v.len() {
        i
    } else if is_lower_exec(v[i]) {
        lower_run_end_exec(v, i + 1)
    } else {
        i
    }
}

/// Tokenizes template text into literal fragments and placeholders.
/// Returns an error exactly when the text holds a `{name}` placeholder whose
/// name is none of the nine recognized ones.
pub fn parse_template(src: &str) -> (r: Result<Vec<Elem>, ConfigError>)
    ensures
        r is Ok <==> template_spec(src@) is Some,
        r matches Ok(t) ==> Option::Some(elems_view(t@)) == template_spec(src@),
{
    let v = chars_of(src);
    let n = v.len();
    let mut toks: Vec<Elem> = Vec::new();
    let mut lit = String::new();
    let mut i: usize = 0;
    let mut col: usize = 0;
    while i < n
        invariant
            n == v@.len(),
            v@ == src@,
            0 <= i <= n,
            col <= i,
            template_spec(src@) == (match template_toks(v@, i as int, col as int, lit@) {
                Option::Some(rest) => Option::Some(elems_view(toks@) + rest),
                Option::None => Option::<Seq<ElemV>>::None,
            }),
        decreases n - i,
    {
        let ghost i0 = i as int;
        let ghost col0 = col as int;
        let c = v[i];
        let mut matched = false;
        if c == '{' {
            let j = lower_run_end_exec(&v, i + 1);
            if j > i + 1 && j < n && v[j] == '}' {
                matched = true;
                let name = string_from_range(&v, i + 1, j);
                let tok: Option<Elem> = if name == String::from_str("title") {
                    Option::Some(Elem::Title)
                } else if name == String::from_str("year") {
                    Option::Some(Elem::Year)
                } else if name == String::from_str("month") {
                    Option::Some(Elem::Month)
                } else if name == String::from_str("day") {
                    Option::Some(Elem::Day)
                } else if name == String::from_str("hour") {
                    Option::Some(Elem::Hour)
                } else if name == String::from_str("minute") {
                    Option::Some(Elem::Minute)
                } else if name == String::from_str("second") {
                    Option::Some(Elem::Second)
                } else if name == String::from_str("toc") {
                    Option::Some(Elem::Toc(col))
                } else if name == String::from_str("content") {
                    Option::Some(Elem::Content(col))
                } else {
                    Option::None
                };
                match tok {
                    Option::None => {
                        return Result::Err(ConfigError::UnknownPlaceholder(name));
                    },
                    Option::Some(t) => {
                        let ghost toks0 = toks@;
                        let ghost lit0 = lit@;
                        let ghost tg = t;
                        if !lit.as_str().is_empty() {
                            let s_elem = Elem::Str(lit);
                            let ghost eg = s_elem;
                            toks.push(s_elem);
                            lit = String::new();
                            proof {
                                crate::data::lemma_elems_view_push(toks0, eg);
                            }
                        }
                        proof {
                            assert(lit@ =~= Seq::<char>::empty());
                        }
                        let ghost mid = toks@;
                        toks.push(t);
                        proof {
                            crate::data::lemma_elems_view_push(mid, tg);
                            assert(elems_view(toks@) =~= elems_view(toks0) + lit_toks(lit0)
                                + seq![crate::data::elem_view(tg)]);
                        }
                        col = col + (j + 1 - i);
                        i = j + 1;
                        proof {
                            let s = v@;
                            let tv = crate::data::elem_view(tg);
                            assert(placeholder_at(s, i0));
                            assert(s.subrange(i0 + 1, j as int) == name@);
                            assert(placeholder_token(s.subrange(i0 + 1, j as int), col0)
                                == Option::Some(tv));
                            let r2 = template_toks(s, j + 1, col0 + (j + 1 - i0), Seq::empty());
                            match r2 {
                                Option::Some(rest) => {
                                    assert(template_toks(s, i0, col0, lit0) == Option::Some(
                                        lit_toks(lit0) + seq![tv] + rest));
                                    assert(elems_view(toks@) + rest =~= elems_view(toks0) + (
                                    lit_toks(lit0) + seq![tv] + rest));
                                },
                                Option::None => {
                                    assert(template_toks(s, i0, col0, lit0) is None);
                                },
                            }
                        }
                    },
                }
            }
        }
        if !matched {
            let ghost lit0 = lit@;
            push_char(&mut lit, c);
            if c == '\n' {
                col = 0;
            } else {
                col = col + 1;
            }
            i = i + 1;
            proof {
                assert(lit@ == lit0.push(c));
            }
        }
    }
    if !lit.as_str().is_empty() {
        let ghost toks0 = toks@;
        let ghost lit0 = lit@;
        let s_elem = Elem::Str(lit);
        let ghost eg = s_elem;
        toks.push(s_elem);
        proof {
            assert(elems_view(toks@) =~= elems_view(toks0) + lit_toks(lit0)) by {
                crate::data::lemma_elems_view_push(toks0, eg);
            }
        }
    }
    Result::Ok(toks)
}

} // verus!
