//! The recursive-descent document parser: block-level and inline-level
//! routines over a cursor into the source text, with the heading registry,
//! the table-of-contents list, and the footnote collector threaded through
//! one `Parser` value per conversion.
//!
//! Every scan honors the first half of the escape protocol: a backslash and
//! the character after it form one opaque unit that no delimiter can match.

use vstd::prelude::*;

use crate::data::SyntaxError;
use crate::multiset::MultiSet;
use crate::text::string_from_range;
use vstd::string::StrSliceExecFns;
use vstd::string::StringExecFns;

verus! {

// ------------------------------------------------------------------
// Scanning, as mathematics
// ------------------------------------------------------------------
/// Whether the text `pre` occurs in `s` starting at position `i`.
pub open spec fn starts_with_at(s: Seq<char>, i: int, pre: Seq<char>) -> bool {
    0 <= i && i + pre.len() <= s.len() && s.subrange(i, i + pre.len()) == pre
}

/// The views of a list of terminator literals.
pub open spec fn term_views(ts: Seq<&str>) -> Seq<Seq<char>> {
    Seq::new(ts.len(), |i: int| ts[i]@)
}

/// Whether any terminator of `terms` occurs in `s` at position `i`.
pub open spec fn matches_any_at(s: Seq<char>, i: int, terms: Seq<Seq<char>>) -> bool {
    exists|j: int| 0 <= j < terms.len() && starts_with_at(s, i, terms[j])
}

/// Where the escape-honoring scan from position `i` stops: at the first
/// position holding a terminator, where a backslash skips the pair of
/// characters it starts, or at the end of the text when no terminator is
/// found.
pub open spec fn scan_end(s: Seq<char>, i: int, terms: Seq<Seq<char>>) -> int
    decreases s.len() - i + 1,
{
    if i < 0 || i >= s.len() {
        s.len() as int
    } else if s[i] == '\\' {
        scan_end(s, i + 2, terms)
    } else if matches_any_at(s, i, terms) {
        i
    } else {
        scan_end(s, i + 1, terms)
    }
}

/// Whether the escape-honoring scan from position `i` finds a terminator
/// before the end of the text.
pub open spec fn scan_found(s: Seq<char>, i: int, terms: Seq<Seq<char>>) -> bool
    decreases s.len() - i + 1,
{
    if i < 0 || i >= s.len() {
        false
    } else if s[i] == '\\' {
        scan_found(s, i + 2, terms)
    } else if matches_any_at(s, i, terms) {
        true
    } else {
        scan_found(s, i + 1, terms)
    }
}

/// The first terminator of `terms`, in list order, that occurs in `s` at
/// position `i` (meaningful when one does).
pub open spec fn first_term(terms: Seq<Seq<char>>, s: Seq<char>, i: int) -> Seq<char>
    decreases terms.len(),
{
    if terms.len() == 0 {
        Seq::empty()
    } else if starts_with_at(s, i, terms[0]) {
        terms[0]
    } else {
        first_term(terms.drop_first(), s, i)
    }
}

/// The views of a list of owned terminator strings.
pub open spec fn string_views(ts: Seq<String>) -> Seq<Seq<char>> {
    Seq::new(ts.len(), |i: int| ts[i]@)
}

/// Whether position `i` of `s` is the end of a line: the end of the text, a
/// bare line break, or a carriage-return-prefixed line break.
pub open spec fn at_eol(s: Seq<char>, i: int) -> bool {
    i >= s.len() || s[i] == '\n' || starts_with_at(s, i, seq!['\r', '\n'])
}

/// How many characters the line terminator at position `i` spans.
pub open spec fn eol_adv(s: Seq<char>, i: int) -> int {
    if i >= s.len() {
        0
    } else if s[i] == '\n' {
        1
    } else {
        2
    }
}

/// A scan that finds a terminator stops before the end, on a position where
/// one matches.
pub proof fn lemma_scan_end_matches(s: Seq<char>, i: int, terms: Seq<Seq<char>>)
    requires
        scan_found(s, i, terms),
    ensures
        scan_end(s, i, terms) < s.len(),
        matches_any_at(s, scan_end(s, i, terms), terms),
    decreases s.len() - i + 1,
{
    if 0 <= i && i < s.len() {
        if s[i] == '\\' {
            lemma_scan_end_matches(s, i + 2, terms);
        } else if !matches_any_at(s, i, terms) {
            lemma_scan_end_matches(s, i + 1, terms);
        }
    }
}

/// If the first matching terminator is at index `j`, `first_term` is that
/// terminator.
pub proof fn lemma_first_term(terms: Seq<Seq<char>>, s: Seq<char>, i: int, j: int)
    requires
        0 <= j < terms.len(),
        starts_with_at(s, i, terms[j]),
        forall|k: int| 0 <= k < j ==> !starts_with_at(s, i, terms[k]),
    ensures
        first_term(terms, s, i) == terms[j],
    decreases j,
{
    if j > 0 {
        lemma_first_term(terms.drop_first(), s, i, j - 1);
    }
}

// ------------------------------------------------------------------
// The parser state
// ------------------------------------------------------------------
/// One in-progress document conversion: the source text with a cursor
/// position, the heading registry, the footnote collector (pending notes and
/// the id counter), and the document outputs built so far.
pub struct Parser {
    chs: Vec<char>,
    pos: usize,
    headers: MultiSet,
    notes: Vec<(crate::data::Inline, usize)>,
    note_id: usize,
    title: String,
    toc: crate::data::List,
    content: Vec<crate::data::Block>,
}

impl Parser {
    /// The cursor is inside the text, the heading registry is well formed,
    /// and no more citation ids have been assigned than characters consumed.
    pub closed spec fn wf(&self) -> bool {
        self.pos <= self.chs@.len() && self.headers.wf() && self.note_id <= self.pos
    }

    /// The source text.
    pub closed spec fn src(&self) -> Seq<char> {
        self.chs@
    }

    /// The cursor position.
    pub closed spec fn at(&self) -> int {
        self.pos as int
    }

    /// The unconsumed suffix of the source text.
    pub closed spec fn remaining(&self) -> Seq<char> {
        self.chs@.subrange(self.pos as int, self.chs@.len() as int)
    }

    /// The two parser states differ at most in the cursor position.
    pub closed spec fn only_cursor(&self, o: &Parser) -> bool {
        &&& self.chs@ == o.chs@
        &&& self.headers == o.headers
        &&& self.notes == o.notes
        &&& self.note_id == o.note_id
        &&& self.title == o.title
        &&& self.toc == o.toc
        &&& self.content == o.content
    }

    /// If the remaining text starts with `pre`, advances past it and reports
    /// success; otherwise moves nothing.
    fn starts_with_next(&mut self, pre: &str) -> (b: bool)
        requires
            old(self).wf(),
        ensures
            final(self).wf(),
            final(self).only_cursor(old(self)),
            b == starts_with_at(old(self).src(), old(self).at(), pre@),
            b ==> final(self).at() == old(self).at() + pre@.len(),
            !b ==> final(self).at() == old(self).at(),
    {
        let n = self.chs.len();
        if self.match_at_pos(self.pos, pre) {
            let m = pre.unicode_len();
            self.pos = self.pos + m;
            true
        } else {
            false
        }
    }

    /// True, advancing past the line terminator, when the cursor stands at
    /// the end of the text or of a line.
    fn is_eol(&mut self) -> (b: bool)
        requires
            old(self).wf(),
        ensures
            final(self).wf(),
            final(self).only_cursor(old(self)),
            b == at_eol(old(self).src(), old(self).at()),
            b ==> final(self).at() == old(self).at() + eol_adv(old(self).src(), old(self).at()),
            !b ==> final(self).at() == old(self).at(),
            b && old(self).at() < old(self).src().len() ==> final(self).at() > old(self).at(),
    {
        if self.pos == self.chs.len() {
            return true;
        }
        if self.starts_with_next("\n") {
            proof {
                reveal_strlit("\n");
                let s = old(self).src();
                let i = old(self).at();
                assert(s.subrange(i, i + 1)[0] == s[i]);
                assert(s[i] == '\n');
            }
            return true;
        }
        if self.starts_with_next("\r\n") {
            proof {
                reveal_strlit("\r\n");
                reveal_strlit("\n");
                let s = old(self).src();
                let i = old(self).at();
                assert("\r\n"@ =~= seq!['\r', '\n']);
                assert(starts_with_at(s, i, seq!['\r', '\n']));
                assert(s.subrange(i, i + 2)[0] == s[i]);
                assert(s[i] == '\r');
            }
            return true;
        }
        proof {
            reveal_strlit("\n");
            reveal_strlit("\r\n");
            let s = old(self).src();
            let i = old(self).at();
            assert(!at_eol(s, i)) by {
                if s[i] == '\n' {
                    assert(s.subrange(i, i + 1) =~= "\n"@);
                    assert(false);
                }
                if starts_with_at(s, i, seq!['\r', '\n']) {
                    assert("\r\n"@ =~= seq!['\r', '\n']);
                    assert(starts_with_at(s, i, "\r\n"@));
                    assert(false);
                }
            }
        }
        false
    }

    /// Whether any of `terms` occurs at position `i` of the text.
    fn match_any(&self, i: usize, terms: &[&str]) -> (b: bool)
        requires
            self.wf(),
            i <= self.src().len(),
        ensures
            b == matches_any_at(self.src(), i as int, term_views(terms@)),
    {
        let mut j: usize = 0;
        while j < terms.len()
            invariant
                self.wf(),
                i <= self.src().len(),
                0 <= j <= terms@.len(),
                forall|k: int|
                    0 <= k < j ==> !starts_with_at(self.src(), i as int, term_views(terms@)[k]),
            decreases terms@.len() - j,
        {
            if self.match_at_pos(i, terms[j]) {
                proof {
                    assert(starts_with_at(self.src(), i as int, term_views(terms@)[j as int]));
                }
                return true;
            }
            j += 1;
        }
        false
    }

    /// Whether the literal `pre` occurs at position `i` of the text.
    fn match_at_pos(&self, i: usize, pre: &str) -> (b: bool)
        requires
            self.wf(),
            i <= self.src().len(),
        ensures
            b == starts_with_at(self.src(), i as int, pre@),
    {
        let n = self.chs.len();
        let m = pre.unicode_len();
        if m > n - i {
            proof {
                assert(!starts_with_at(self.src(), i as int, pre@));
            }
            return false;
        }
        let mut k: usize = 0;
        while k < m
            invariant
                self.wf(),
                m == pre@.len(),
                n == self.chs@.len(),
                i + m <= n,
                0 <= k <= m,
                forall|t: int| 0 <= t < k ==> self.chs@[i + t] == pre@[t],
            decreases m - k,
        {
            if self.chs[i + k] != pre.get_char(k) {
                proof {
                    assert(self.chs@.subrange(i as int, i + pre@.len())[k as int] != pre@[k as int]);
                }
                return false;
            }
            k += 1;
        }
        proof {
            assert(self.chs@.subrange(i as int, i + pre@.len()) =~= pre@);
        }
        true
    }

    /// The position where the escape-honoring scan from the cursor stops.
    fn find_scan_end(&self, terms: &[&str]) -> (r: usize)
        requires
            self.wf(),
        ensures
            r == scan_end(self.src(), self.at(), term_views(terms@)),
            self.at() <= r <= self.src().len(),
            scan_found(self.src(), self.at(), term_views(terms@)) <==> r < self.src().len(),
            r < self.src().len() ==> matches_any_at(self.src(), r as int, term_views(terms@)),
    {
        let n = self.chs.len();
        let mut i = self.pos;
        loop
            invariant
                self.wf(),
                n == self.src().len(),
                self.pos <= i <= n,
                scan_end(self.src(), self.at(), term_views(terms@)) == scan_end(
                    self.src(),
                    i as int,
                    term_views(terms@),
                ),
                scan_found(self.src(), self.at(), term_views(terms@)) == scan_found(
                    self.src(),
                    i as int,
                    term_views(terms@),
                ),
            decreases n - i,
        {
            if i >= n {
                proof {
                    assert(scan_end(self.src(), i as int, term_views(terms@)) == n);
                    assert(!scan_found(self.src(), i as int, term_views(terms@)));
                }
                return n;
            }
            if self.chs[i] == '\\' {
                if n - i >= 2 {
                    i += 2;
                } else {
                    proof {
                        assert(scan_end(self.src(), i + 2, term_views(terms@)) == n);
                        assert(!scan_found(self.src(), i + 2, term_views(terms@)));
                    }
                    return n;
                }
            } else if self.match_any(i, terms) {
                return i;
            } else {
                i += 1;
            }
        }
    }

    /// Scans forward to the next terminator (or the end of the text),
    /// honoring backslash escapes, and returns the text scanned; the cursor
    /// is left at the terminator, which is not consumed.
    fn read_until(&mut self, terms: &[&str]) -> (r: String)
        requires
            old(self).wf(),
        ensures
            final(self).wf(),
            final(self).only_cursor(old(self)),
            final(self).at() == scan_end(old(self).src(), old(self).at(), term_views(terms@)),
            r@ == old(self).src().subrange(old(self).at(), final(self).at()),
            old(self).at() <= final(self).at() <= final(self).src().len(),
    {
        let e = self.find_scan_end(terms);
        let r = string_from_range(&self.chs, self.pos, e);
        self.pos = e;
        r
    }

    /// Scans forward to the next terminator, honoring backslash escapes;
    /// returns the text scanned and consumes the first terminator (in list
    /// order) found there. Fails, moving nothing, exactly when no terminator
    /// occurs before the end of the text.
    fn read_until_trim(&mut self, terms: &[&str]) -> (r: Result<String, SyntaxError>)
        requires
            old(self).wf(),
            terms@.len() > 0,
        ensures
            final(self).wf(),
            final(self).only_cursor(old(self)),
            old(self).at() <= final(self).at() <= final(self).src().len(),
            r is Ok <==> scan_found(old(self).src(), old(self).at(), term_views(terms@)),
            r matches Ok(t) ==> {
                let e = scan_end(old(self).src(), old(self).at(), term_views(terms@));
                let ft = first_term(term_views(terms@), old(self).src(), e);
                &&& t@ == old(self).src().subrange(old(self).at(), e)
                &&& starts_with_at(old(self).src(), e, ft)
                &&& final(self).at() == e + ft.len()
                &&& final(self).at() > old(self).at() || ft.len() == 0
            },
            r is Err ==> final(self).at() == old(self).at(),
            r matches Err(e) ==> (e matches SyntaxError::Expect(ts) && string_views(ts@)
                == term_views(terms@)),
    {
        let e = self.find_scan_end(terms);
        let n = self.chs.len();
        if e >= n {
            return Result::Err(SyntaxError::Expect(terms_to_strings(terms)));
        }
        let mut j: usize = 0;
        while j < terms.len()
            invariant
                self.wf(),
                self.only_cursor(old(self)),
                self.pos == old(self).pos,
                n == self.src().len(),
                self.pos <= e < n,
                e == scan_end(old(self).src(), old(self).at(), term_views(terms@)),
                scan_found(old(self).src(), old(self).at(), term_views(terms@)),
                matches_any_at(self.src(), e as int, term_views(terms@)),
                0 <= j <= terms@.len(),
                forall|k: int|
                    0 <= k < j ==> !starts_with_at(self.src(), e as int, term_views(terms@)[k]),
            decreases terms@.len() - j,
        {
            if self.match_at_pos(e, terms[j]) {
                proof {
                    lemma_first_term(term_views(terms@), self.src(), e as int, j as int);
                }
                let tlen = terms[j].unicode_len();
                let r = string_from_range(&self.chs, self.pos, e);
                self.pos = e + tlen;
                return Result::Ok(r);
            }
            j += 1;
        }
        proof {
            assert(false);
        }
        Result::Err(SyntaxError::Expect(terms_to_strings(terms)))
    }
}

/// The terminator literals as owned strings, for a syntax-error report.
fn terms_to_strings(terms: &[&str]) -> (r: Vec<String>)
    ensures
        string_views(r@) == term_views(terms@),
{
    let mut r: Vec<String> = Vec::new();
    let mut j: usize = 0;
    while j < terms.len()
        invariant
            0 <= j <= terms@.len(),
            r@.len() == j,
            forall|k: int| 0 <= k < j ==> r@[k]@ == terms@[k]@,
        decreases terms@.len() - j,
    {
        r.push(String::from_str(terms[j]));
        j += 1;
    }
    proof {
        assert(string_views(r@) =~= term_views(terms@));
    }
    r
}

} // verus!

verus! {

// ------------------------------------------------------------------
// Plain text, footnote bookkeeping
// ------------------------------------------------------------------
/// A character with no syntactic meaning at the inline level: it starts no
/// span construct, no escape, and no line break.
pub open spec fn plain_char(c: char) -> bool {
    c != '|' && c != '*' && c != '_' && c != '[' && c != ']' && c != '$' && c != '`' && c != '\\'
        && c != '\n' && c != '\r'
}

/// Text whose characters are all plain.
pub open spec fn plain_seq(s: Seq<char>) -> bool {
    forall|i: int| 0 <= i < s.len() ==> plain_char(s[i])
}

/// The citation ids of the pending-note buffer, in buffer order.
pub open spec fn note_ids(s: Seq<(crate::data::Inline, usize)>) -> Seq<int> {
    Seq::new(s.len(), |i: int| s[i].1 as int)
}

/// The ids strictly above `a` and at most `b`, in increasing order.
pub open spec fn id_range(a: int, b: int) -> Seq<int> {
    Seq::new(if b >= a { (b - a) as nat } else { 0 }, |i: int| a + 1 + i)
}

impl Parser {
    /// What every parsing step preserves: the source text, the already
    /// frozen outputs it does not own, and the footnote discipline — the
    /// pending-note buffer grows by exactly the ids assigned since, in
    /// increasing order.
    pub closed spec fn inline_step(a: Parser, b: Parser) -> bool {
        &&& b.chs@ == a.chs@
        &&& a.pos <= b.pos <= b.chs@.len()
        &&& b.headers == a.headers
        &&& b.title == a.title
        &&& b.toc == a.toc
        &&& b.content == a.content
        &&& a.note_id <= b.note_id
        &&& note_ids(b.notes@) == note_ids(a.notes@) + id_range(a.note_id as int, b.note_id as int)
    }
}

/// Scanning a terminator list whose terminators all start with a special
/// character over plain text finds nothing and stops at the end.
pub proof fn lemma_scan_plain(s: Seq<char>, i: int, terms: Seq<Seq<char>>)
    requires
        0 <= i,
        forall|k: int| i <= k < s.len() ==> plain_char(#[trigger] s[k]),
        forall|j: int|
            0 <= j < terms.len() ==> (#[trigger] terms[j]).len() > 0 && !plain_char(terms[j][0]),
    ensures
        scan_end(s, i, terms) == s.len(),
        !scan_found(s, i, terms),
    decreases s.len() - i + 1,
{
    if i < s.len() {
        assert(plain_char(s[i]));
        if matches_any_at(s, i, terms) {
            let j = choose|j: int| 0 <= j < terms.len() && starts_with_at(s, i, terms[j]);
            assert(s.subrange(i, i + terms[j].len())[0] == s[i]);
            assert(false);
        }
        lemma_scan_plain(s, i + 1, terms);
    }
}

/// Two adjacent id ranges concatenate to one.
pub proof fn lemma_id_range_concat(a: int, b: int, c: int)
    requires
        a <= b <= c,
    ensures
        id_range(a, b) + id_range(b, c) == id_range(a, c),
{
    assert(id_range(a, b) + id_range(b, c) =~= id_range(a, c));
}

impl Parser {
    /// Whether the cursor stands at the end of a line, moving nothing.
    fn at_eol_check(&self) -> (b: bool)
        requires
            self.wf(),
        ensures
            b == at_eol(self.src(), self.at()),
    {
        let n = self.chs.len();
        if self.pos >= n {
            return true;
        }
        let c = self.chs[self.pos];
        if c == '\n' {
            return true;
        }
        if c == '\r' && self.pos + 1 < n {
            if self.chs[self.pos + 1] == '\n' {
                proof {
                    assert(self.src().subrange(self.at(), self.at() + 2) =~= seq!['\r', '\n']);
                }
                return true;
            }
        }
        proof {
            let s = self.src();
            let i = self.at();
            if starts_with_at(s, i, seq!['\r', '\n']) {
                assert(s.subrange(i, i + 2)[0] == s[i]);
                assert(s.subrange(i, i + 2)[1] == s[i + 1]);
                assert(false);
            }
        }
        false
    }

    /// If the first terminator of `terms` (in list order) occurring at the
    /// cursor exists, consumes it and reports success; otherwise moves
    /// nothing.
    fn try_terms(&mut self, terms: &[&str]) -> (b: bool)
        requires
            old(self).wf(),
        ensures
            final(self).wf(),
            final(self).only_cursor(old(self)),
            b == matches_any_at(old(self).src(), old(self).at(), term_views(terms@)),
            !b ==> final(self).at() == old(self).at(),
            b ==> {
                let ft = first_term(term_views(terms@), old(self).src(), old(self).at());
                &&& starts_with_at(old(self).src(), old(self).at(), ft)
                &&& final(self).at() == old(self).at() + ft.len()
                &&& exists|j: int| 0 <= j < terms@.len() && term_views(terms@)[j] == ft
            },
    {
        let n = self.chs.len();
        let mut j: usize = 0;
        while j < terms.len()
            invariant
                self.wf(),
                self.only_cursor(old(self)),
                self.pos == old(self).pos,
                n == self.src().len(),
                0 <= j <= terms@.len(),
                forall|k: int|
                    0 <= k < j ==> !starts_with_at(self.src(), self.at(), term_views(terms@)[k]),
            decreases terms@.len() - j,
        {
            if self.match_at_pos(self.pos, terms[j]) {
                proof {
                    lemma_first_term(term_views(terms@), self.src(), self.at(), j as int);
                    assert(starts_with_at(self.src(), self.at(), term_views(terms@)[j as int]));
                }
                let tlen = terms[j].unicode_len();
                self.pos = self.pos + tlen;
                return true;
            }
            j += 1;
        }
        false
    }
}

} // verus!

verus! {

/// No prefix that starts with a special character occurs at position `i` of
/// text that is plain from `i` on.
pub proof fn lemma_plain_no_prefix(s: Seq<char>, i: int, pre: Seq<char>)
    requires
        forall|k: int| i <= k < s.len() ==> plain_char(#[trigger] s[k]),
        pre.len() > 0,
        !plain_char(pre[0]),
    ensures
        !starts_with_at(s, i, pre),
{
    if starts_with_at(s, i, pre) {
        assert(s.subrange(i, i + pre.len())[0] == s[i]);
        assert(false);
    }
}

impl Parser {
    /// What no parsing step may disturb: the source text, the cursor's
    /// direction of travel, and — at the inline level — the frozen outputs.
    pub closed spec fn frame(a: Parser, b: Parser) -> bool {
        &&& b.chs@ == a.chs@
        &&& a.pos <= b.pos <= b.chs@.len()
        &&& b.headers == a.headers
        &&& b.title == a.title
        &&& b.toc == a.toc
        &&& b.content == a.content
        &&& a.note_id <= b.note_id
    }

    /// The plain-text suffix of the source from the cursor on.
    pub closed spec fn plain_tail(&self) -> bool {
        forall|k: int| self.at() <= k < self.src().len() ==> plain_char(#[trigger] self.src()[k])
    }

    /// Parses one primary span: an inline math span (`$`…`$`), an inline
    /// code span (`` ` ``…`` ` ``), or literal text up to the next special
    /// character or line end. A special character that no enclosing
    /// construct consumed is taken as one literal character, so a parse
    /// step at a position before the end of the text always makes progress.
    fn parse_primary(&mut self) -> (r: Result<crate::data::Span, SyntaxError>)
        requires
            old(self).wf(),
        ensures
            final(self).wf(),
            Parser::frame(*old(self), *final(self)),
            final(self).notes == old(self).notes,
            final(self).note_id == old(self).note_id,
            r is Ok ==> final(self).at() > old(self).at() || old(self).at() == old(self).src().len(),
            starts_with_at(old(self).src(), old(self).at(), "$"@) ==> (r is Ok <==> scan_found(
                old(self).src(),
                old(self).at() + 1,
                seq!["$"@],
            )),
            starts_with_at(old(self).src(), old(self).at(), "$"@) ==> (r matches Ok(sp) ==> (
            sp matches crate::data::Span::Math { math } && math@ == old(self).src().subrange(
                old(self).at() + 1,
                scan_end(old(self).src(), old(self).at() + 1, seq!["$"@]),
            ))),
            old(self).plain_tail() ==> (r matches Ok(sp) && crate::data::span_view(sp)
                == crate::data::SpanV::Text { text: old(self).remaining() } && final(self).at()
                == old(self).src().len()),
            sp_primary(old(self).src(), old(self).ist()) == span_res(r, final(self).ist()),
    {
        proof {
            reveal_strlit("$");
            reveal_strlit("`");
            if old(self).plain_tail() {
                lemma_plain_no_prefix(old(self).src(), old(self).at(), "$"@);
                lemma_plain_no_prefix(old(self).src(), old(self).at(), "`"@);
            }
        }
        if self.starts_with_next("$") {
            let terms: &[&str] = &["$"];
            proof {
                assert(term_views(terms@) =~= seq!["$"@]);
            }
            let r0 = self.read_until_trim(terms);
            proof {
                if r0 is Ok {
                    let sq = old(self).src();
                    lemma_scan_end_matches(sq, old(self).at() + 1, seq!["$"@]);
                    let e = scan_end(sq, old(self).at() + 1, seq!["$"@]);
                    assert(first_term(seq!["$"@], sq, e) == "$"@);
                }
            }
            match r0 {
                Result::Ok(math) => {
                    return Result::Ok(crate::data::Span::Math { math });
                },
                Result::Err(e) => {
                    return Result::Err(e);
                },
            }
        }
        if self.starts_with_next("`") {
            let terms: &[&str] = &["`"];
            proof {
                assert(term_views(terms@) =~= seq!["`"@]);
            }
            let r0 = self.read_until_trim(terms);
            proof {
                if r0 is Ok {
                    let sq = old(self).src();
                    lemma_scan_end_matches(sq, old(self).at() + 1, seq!["`"@]);
                    let e = scan_end(sq, old(self).at() + 1, seq!["`"@]);
                    assert(first_term(seq!["`"@], sq, e) == "`"@);
                }
            }
            match r0 {
                Result::Ok(code) => {
                    return Result::Ok(crate::data::Span::Code { code });
                },
                Result::Err(e) => {
                    return Result::Err(e);
                },
            }
        }
        let terms: &[&str] = &["|", "**", "__", "[", "]", "$", "`", "\n", "\r\n"];
        proof {
            reveal_strlit("|");
            reveal_strlit("**");
            reveal_strlit("__");
            reveal_strlit("[");
            reveal_strlit("]");
            reveal_strlit("\n");
            reveal_strlit("\r\n");
            assert(term_views(terms@) =~= text_terms());
            if old(self).plain_tail() {
                let s = old(self).src();
                let i = old(self).at();
                assert forall|k: int| i <= k < s.len() implies plain_char(#[trigger] s[k]) by {}
                lemma_scan_plain(s, i, term_views(terms@));
            }
        }
        let t = self.read_until(terms);
        let n = self.chs.len();
        if t.as_str().is_empty() && self.pos < n {
            let e = self.pos + 1;
            let t1 = string_from_range(&self.chs, self.pos, e);
            self.pos = e;
            return Result::Ok(crate::data::Span::Text { text: t1 });
        }
        proof {
            if old(self).plain_tail() {
                assert(t@ =~= old(self).remaining());
            }
        }
        Result::Ok(crate::data::Span::Text { text: t })
    }

    /// Parses the spans of an enclosed run until the first terminator of
    /// `terms` is consumed, one `parse_emph` step at a time. Fails when the
    /// end of the text comes first.
    fn parse_until_emph(&mut self, terms: &[&str]) -> (r: Result<Vec<crate::data::Span>, SyntaxError>)
        requires
            old(self).wf(),
            forall|ji: int| 0 <= ji < terms@.len() ==> (#[trigger] terms@[ji])@.len() > 0,
        ensures
            final(self).wf(),
            Parser::frame(*old(self), *final(self)),
            final(self).notes == old(self).notes,
            final(self).note_id == old(self).note_id,
            r is Ok ==> final(self).at() > old(self).at(),
            sp_until_emph(old(self).src(), old(self).ist(), term_views(terms@)) == spans_res(
                r,
                final(self).ist(),
            ),
        decreases self.chs@.len() - self.pos, 2int,
    {
        let mut res: Vec<crate::data::Span> = Vec::new();
        let n = self.chs.len();
        proof {
            match sp_until_emph(old(self).src(), old(self).ist(), term_views(terms@)) {
                Result::Ok(p) => {
                    assert(crate::data::spans_view(res@) + p.0 =~= p.0);
                },
                Result::Err(e) => {},
            }
        }
        loop
            invariant
                self.wf(),
                n == self.src().len(),
                forall|ji: int| 0 <= ji < terms@.len() ==> (#[trigger] terms@[ji])@.len() > 0,
                Parser::frame(*old(self), *self),
                self.notes == old(self).notes,
                self.note_id == old(self).note_id,
                sp_until_emph(old(self).src(), old(self).ist(), term_views(terms@)) == (
                match sp_until_emph(old(self).src(), self.ist(), term_views(terms@)) {
                    Result::Ok(p) => Result::<(Seq<crate::data::SpanV>, InSt), ErrV>::Ok(
                        (crate::data::spans_view(res@) + p.0, p.1),
                    ),
                    Result::Err(e) => Result::Err(e),
                }),
            decreases n - self.pos,
        {
            if self.pos >= n {
                return Result::Err(SyntaxError::Expect(terms_to_strings(terms)));
            }
            let ghost before = *self;
            if self.try_terms(terms) {
                proof {
                    let tv = term_views(terms@);
                    let ft = first_term(tv, before.src(), before.at());
                    let j = choose|j: int| 0 <= j < tv.len() && tv[j] == ft;
                    assert(terms@[j]@.len() > 0);
                    assert(ft.len() > 0);
                    assert(self.ist() == (InSt {
                        pos: before.ist().pos + ft.len(),
                        note_id: before.ist().note_id,
                        notes: before.ist().notes,
                    }));
                    assert(sp_until_emph(old(self).src(), before.ist(), term_views(terms@))
                        == Result::<(Seq<crate::data::SpanV>, InSt), ErrV>::Ok(
                        (Seq::empty(), self.ist()),
                    ));
                    assert(crate::data::spans_view(res@) + Seq::<crate::data::SpanV>::empty()
                        =~= crate::data::spans_view(res@));
                }
                return Result::Ok(res);
            }
            let ghost cur = *self;
            let sp = match self.parse_emph() {
                Result::Ok(sp) => sp,
                Result::Err(e) => {
                    return Result::Err(e);
                },
            };
            let ghost spg = sp;
            let ghost res0 = res@;
            res.push(sp);
            proof {
                crate::data::lemma_spans_view_push(res0, spg);
                assert(cur.at() < self.at() <= self.src().len());
                match sp_until_emph(old(self).src(), self.ist(), term_views(terms@)) {
                    Result::Ok(p2) => {
                        assert(crate::data::spans_view(res@) + p2.0 =~= crate::data::spans_view(
                            res0,
                        ) + (seq![crate::data::span_view(spg)] + p2.0));
                    },
                    Result::Err(e) => {},
                }
            }
        }
    }

    /// Parses one emphasis span: bold (`**`…`**`), italic (`__`…`__`), or a
    /// primary span.
    fn parse_emph(&mut self) -> (r: Result<crate::data::Span, SyntaxError>)
        requires
            old(self).wf(),
        ensures
            final(self).wf(),
            Parser::frame(*old(self), *final(self)),
            final(self).notes == old(self).notes,
            final(self).note_id == old(self).note_id,
            r is Ok ==> final(self).at() > old(self).at() || old(self).at() == old(self).src().len(),
            old(self).plain_tail() ==> (r matches Ok(sp) && crate::data::span_view(sp)
                == crate::data::SpanV::Text { text: old(self).remaining() } && final(self).at()
                == old(self).src().len()),
            sp_emph(old(self).src(), old(self).ist()) == span_res(r, final(self).ist()),
        decreases self.chs@.len() - self.pos, 1int,
    {
        proof {
            reveal_strlit("**");
            reveal_strlit("__");
            if old(self).plain_tail() {
                lemma_plain_no_prefix(old(self).src(), old(self).at(), "**"@);
                lemma_plain_no_prefix(old(self).src(), old(self).at(), "__"@);
            }
        }
        if self.starts_with_next("**") {
            let terms: &[&str] = &["**"];
            proof {
                reveal_strlit("**");
                assert(term_views(terms@) =~= seq!["**"@]);
            }
            match self.parse_until_emph(terms) {
                Result::Ok(v) => {
                    return Result::Ok(
                        crate::data::Span::Bold { text: crate::data::Inline(v) },
                    );
                },
                Result::Err(e) => {
                    return Result::Err(e);
                },
            }
        }
        if self.starts_with_next("__") {
            let terms: &[&str] = &["__"];
            proof {
                reveal_strlit("__");
                assert(term_views(terms@) =~= seq!["__"@]);
            }
            match self.parse_until_emph(terms) {
                Result::Ok(v) => {
                    return Result::Ok(
                        crate::data::Span::Ital { text: crate::data::Inline(v) },
                    );
                },
                Result::Err(e) => {
                    return Result::Err(e);
                },
            }
        }
        self.parse_primary()
    }
}

} // verus!

verus! {

impl Parser {
    /// Parses one link span (`[`text`](`url`)`), else an emphasis span. A
    /// link whose text is empty is kept with its empty text: the external
    /// metadata resolver fills it in a later pass.
    fn parse_link(&mut self) -> (r: Result<crate::data::Span, SyntaxError>)
        requires
            old(self).wf(),
        ensures
            final(self).wf(),
            Parser::frame(*old(self), *final(self)),
            final(self).notes == old(self).notes,
            final(self).note_id == old(self).note_id,
            r is Ok ==> final(self).at() > old(self).at() || old(self).at() == old(self).src().len(),
            old(self).plain_tail() ==> (r matches Ok(sp) && crate::data::span_view(sp)
                == crate::data::SpanV::Text { text: old(self).remaining() } && final(self).at()
                == old(self).src().len()),
            sp_link(old(self).src(), old(self).ist()) == span_res(r, final(self).ist()),
    {
        proof {
            reveal_strlit("[");
            if old(self).plain_tail() {
                lemma_plain_no_prefix(old(self).src(), old(self).at(), "["@);
            }
        }
        if self.starts_with_next("[") {
            let terms1: &[&str] = &["]("];
            proof {
                reveal_strlit("](");
                assert(term_views(terms1@) =~= seq!["]("@]);
            }
            let text = match self.parse_until_emph(terms1) {
                Result::Ok(v) => v,
                Result::Err(e) => {
                    return Result::Err(e);
                },
            };
            let ghost mid = *self;
            let terms2: &[&str] = &[")"];
            proof {
                reveal_strlit(")");
                assert(term_views(terms2@) =~= seq![")"@]);
            }
            let r0 = self.read_until_trim(terms2);
            proof {
                if r0 is Ok {
                    let sq = old(self).src();
                    lemma_scan_end_matches(sq, mid.at(), seq![")"@]);
                    let e = scan_end(sq, mid.at(), seq![")"@]);
                    assert(first_term(seq![")"@], sq, e) == ")"@);
                }
            }
            let url = match r0 {
                Result::Ok(u) => u,
                Result::Err(e) => {
                    return Result::Err(e);
                },
            };
            return Result::Ok(
                crate::data::Span::Link { text: crate::data::Inline(text), url },
            );
        }
        self.parse_emph()
    }

    /// Parses the spans of an enclosed run until the first terminator of
    /// `terms` is consumed, one `parse_link` step at a time.
    fn parse_until_link(&mut self, terms: &[&str]) -> (r: Result<
        Vec<crate::data::Span>,
        SyntaxError,
    >)
        requires
            old(self).wf(),
            forall|ji: int| 0 <= ji < terms@.len() ==> (#[trigger] terms@[ji])@.len() > 0,
        ensures
            final(self).wf(),
            Parser::frame(*old(self), *final(self)),
            final(self).notes == old(self).notes,
            final(self).note_id == old(self).note_id,
            r is Ok ==> final(self).at() > old(self).at(),
            sp_until_link(old(self).src(), old(self).ist(), term_views(terms@)) == spans_res(
                r,
                final(self).ist(),
            ),
    {
        let mut res: Vec<crate::data::Span> = Vec::new();
        let n = self.chs.len();
        proof {
            match sp_until_link(old(self).src(), old(self).ist(), term_views(terms@)) {
                Result::Ok(p) => {
                    assert(crate::data::spans_view(res@) + p.0 =~= p.0);
                },
                Result::Err(e) => {},
            }
        }
        loop
            invariant
                self.wf(),
                n == self.src().len(),
                forall|ji: int| 0 <= ji < terms@.len() ==> (#[trigger] terms@[ji])@.len() > 0,
                Parser::frame(*old(self), *self),
                self.notes == old(self).notes,
                self.note_id == old(self).note_id,
                sp_until_link(old(self).src(), old(self).ist(), term_views(terms@)) == (
                match sp_until_link(old(self).src(), self.ist(), term_views(terms@)) {
                    Result::Ok(p) => Result::<(Seq<crate::data::SpanV>, InSt), ErrV>::Ok(
                        (crate::data::spans_view(res@) + p.0, p.1),
                    ),
                    Result::Err(e) => Result::Err(e),
                }),
            decreases n - self.pos,
        {
            if self.pos >= n {
                return Result::Err(SyntaxError::Expect(terms_to_strings(terms)));
            }
            let ghost before = *self;
            if self.try_terms(terms) {
                proof {
                    let tv = term_views(terms@);
                    let ft = first_term(tv, before.src(), before.at());
                    let j = choose|j: int| 0 <= j < tv.len() && tv[j] == ft;
                    assert(terms@[j]@.len() > 0);
                    assert(ft.len() > 0);
                    assert(self.ist() == (InSt {
                        pos: before.ist().pos + ft.len(),
                        note_id: before.ist().note_id,
                        notes: before.ist().notes,
                    }));
                    assert(crate::data::spans_view(res@) + Seq::<crate::data::SpanV>::empty()
                        =~= crate::data::spans_view(res@));
                }
                return Result::Ok(res);
            }
            let ghost cur = *self;
            let sp = match self.parse_link() {
                Result::Ok(sp) => sp,
                Result::Err(e) => {
                    return Result::Err(e);
                },
            };
            let ghost spg = sp;
            let ghost res0 = res@;
            res.push(sp);
            proof {
                crate::data::lemma_spans_view_push(res0, spg);
                assert(cur.at() < self.at() <= self.src().len());
                match sp_until_link(old(self).src(), self.ist(), term_views(terms@)) {
                    Result::Ok(p2) => {
                        assert(crate::data::spans_view(res@) + p2.0 =~= crate::data::spans_view(
                            res0,
                        ) + (seq![crate::data::span_view(spg)] + p2.0));
                    },
                    Result::Err(e) => {},
                }
            }
        }
    }

    /// Parses one citation span (`[^`note body`]`): assigns the next id,
    /// hands the parsed note body to the footnote collector, and yields the
    /// back-reference. Else parses a link span.
    fn parse_cite(&mut self) -> (r: Result<crate::data::Span, SyntaxError>)
        requires
            old(self).wf(),
        ensures
            final(self).wf(),
            Parser::frame(*old(self), *final(self)),
            r is Ok ==> note_ids(final(self).notes@) =~= note_ids(old(self).notes@) + id_range(
                old(self).note_id as int,
                final(self).note_id as int,
            ),
            r is Ok ==> final(self).at() > old(self).at() || old(self).at() == old(self).src().len(),
            old(self).plain_tail() ==> (r matches Ok(sp) && crate::data::span_view(sp)
                == crate::data::SpanV::Text { text: old(self).remaining() } && final(self).at()
                == old(self).src().len() && final(self).notes == old(self).notes && final(self).note_id == old(self).note_id),
            sp_cite(old(self).src(), old(self).ist()) == span_res(r, final(self).ist()),
    {
        proof {
            reveal_strlit("[^");
            if old(self).plain_tail() {
                lemma_plain_no_prefix(old(self).src(), old(self).at(), "[^"@);
            }
        }
        if self.starts_with_next("[^") {
            self.note_id = self.note_id + 1;
            let id = self.note_id;
            let terms: &[&str] = &["]"];
            proof {
                reveal_strlit("]");
                assert(term_views(terms@) =~= seq!["]"@]);
            }
            let ghost mid = *self;
            let note = match self.parse_until_link(terms) {
                Result::Ok(v) => v,
                Result::Err(e) => {
                    return Result::Err(e);
                },
            };
            let ghost st1 = self.ist();
            let ghost noteg = note;
            let ghost notes0 = self.notes@;
            self.notes.push((crate::data::Inline(note), id));
            proof {
                crate::data::lemma_notes_view(notes0);
                crate::data::lemma_notes_view(self.notes@);
                assert(crate::data::notes_view(self.notes@) =~= crate::data::notes_view(
                    notes0,
                ).push((crate::data::spans_view(noteg@), id as int)));
                assert(note_ids(self.notes@) =~= note_ids(old(self).notes@) + id_range(
                    old(self).note_id as int,
                    self.note_id as int,
                ));
                assert(self.ist() == (InSt {
                    pos: st1.pos,
                    note_id: st1.note_id,
                    notes: st1.notes.push((crate::data::spans_view(noteg@), id as int)),
                }));
            }
            return Result::Ok(crate::data::Span::Cite { id });
        }
        let r = self.parse_link();
        proof {
            if r is Ok {
                assert(note_ids(final(self).notes@) =~= note_ids(old(self).notes@) + id_range(
                    old(self).note_id as int,
                    final(self).note_id as int,
                ));
            }
        }
        r
    }

    /// Parses the spans of an enclosed run until the first terminator of
    /// `terms` is consumed, one `parse_cite` step at a time.
    fn parse_until_cite(&mut self, terms: &[&str]) -> (r: Result<
        Vec<crate::data::Span>,
        SyntaxError,
    >)
        requires
            old(self).wf(),
            forall|ji: int| 0 <= ji < terms@.len() ==> (#[trigger] terms@[ji])@.len() > 0,
        ensures
            final(self).wf(),
            Parser::frame(*old(self), *final(self)),
            r is Ok ==> note_ids(final(self).notes@) =~= note_ids(old(self).notes@) + id_range(
                old(self).note_id as int,
                final(self).note_id as int,
            ),
            r is Ok ==> final(self).at() > old(self).at(),
            sp_until_cite(old(self).src(), old(self).ist(), term_views(terms@)) == spans_res(
                r,
                final(self).ist(),
            ),
    {
        let mut res: Vec<crate::data::Span> = Vec::new();
        let n = self.chs.len();
        proof {
            match sp_until_cite(old(self).src(), old(self).ist(), term_views(terms@)) {
                Result::Ok(p) => {
                    assert(crate::data::spans_view(res@) + p.0 =~= p.0);
                },
                Result::Err(e) => {},
            }
        }
        loop
            invariant
                self.wf(),
                n == self.src().len(),
                forall|ji: int| 0 <= ji < terms@.len() ==> (#[trigger] terms@[ji])@.len() > 0,
                Parser::frame(*old(self), *self),
                note_ids(self.notes@) =~= note_ids(old(self).notes@) + id_range(
                    old(self).note_id as int,
                    self.note_id as int,
                ),
                sp_until_cite(old(self).src(), old(self).ist(), term_views(terms@)) == (
                match sp_until_cite(old(self).src(), self.ist(), term_views(terms@)) {
                    Result::Ok(p) => Result::<(Seq<crate::data::SpanV>, InSt), ErrV>::Ok(
                        (crate::data::spans_view(res@) + p.0, p.1),
                    ),
                    Result::Err(e) => Result::Err(e),
                }),
            decreases n - self.pos,
        {
            if self.pos >= n {
                return Result::Err(SyntaxError::Expect(terms_to_strings(terms)));
            }
            let ghost before = *self;
            if self.try_terms(terms) {
                proof {
                    let tv = term_views(terms@);
                    let ft = first_term(tv, before.src(), before.at());
                    let j = choose|j: int| 0 <= j < tv.len() && tv[j] == ft;
                    assert(terms@[j]@.len() > 0);
                    assert(ft.len() > 0);
                    assert(self.ist() == (InSt {
                        pos: before.ist().pos + ft.len(),
                        note_id: before.ist().note_id,
                        notes: before.ist().notes,
                    }));
                    assert(crate::data::spans_view(res@) + Seq::<crate::data::SpanV>::empty()
                        =~= crate::data::spans_view(res@));
                }
                return Result::Ok(res);
            }
            let ghost mid = *self;
            let sp = match self.parse_cite() {
                Result::Ok(sp) => sp,
                Result::Err(e) => {
                    return Result::Err(e);
                },
            };
            proof {
                lemma_id_range_concat(
                    old(self).note_id as int,
                    mid.note_id as int,
                    self.note_id as int,
                );
                assert(note_ids(self.notes@) =~= note_ids(old(self).notes@) + id_range(
                    old(self).note_id as int,
                    self.note_id as int,
                ));
            }
            let ghost spg = sp;
            let ghost res0 = res@;
            res.push(sp);
            proof {
                crate::data::lemma_spans_view_push(res0, spg);
                assert(mid.at() < self.at() <= self.src().len());
                match sp_until_cite(old(self).src(), self.ist(), term_views(terms@)) {
                    Result::Ok(p2) => {
                        assert(crate::data::spans_view(res@) + p2.0 =~= crate::data::spans_view(
                            res0,
                        ) + (seq![crate::data::span_view(spg)] + p2.0));
                    },
                    Result::Err(e) => {},
                }
            }
        }
    }

    /// Parses one inline line: spans up to and including the line end.
    fn parse_inline(&mut self) -> (r: Result<crate::data::Inline, SyntaxError>)
        requires
            old(self).wf(),
        ensures
            final(self).wf(),
            Parser::frame(*old(self), *final(self)),
            r is Ok ==> note_ids(final(self).notes@) =~= note_ids(old(self).notes@) + id_range(
                old(self).note_id as int,
                final(self).note_id as int,
            ),
            r is Ok ==> final(self).at() > old(self).at() || old(self).at() == old(self).src().len(),
            old(self).plain_tail() ==> (r matches Ok(inl) && final(self).at() == old(self).src().len() && final(self).notes == old(self).notes && final(self).note_id == old(self).note_id && crate::data::inline_view(inl) == (if old(self).remaining().len() == 0 {
                Seq::<crate::data::SpanV>::empty()
            } else {
                seq![crate::data::SpanV::Text { text: old(self).remaining() }]
            })),
            sp_inline(old(self).src(), old(self).ist()) == inline_res(r, final(self).ist()),
    {
        let mut spans: Vec<crate::data::Span> = Vec::new();
        let n = self.chs.len();
        proof {
            match sp_inline(old(self).src(), old(self).ist()) {
                Result::Ok(p) => {
                    assert(crate::data::spans_view(spans@) + p.0 =~= p.0);
                },
                Result::Err(e) => {},
            }
        }
        while !self.at_eol_check()
            invariant
                self.wf(),
                n == self.src().len(),
                Parser::frame(*old(self), *self),
                note_ids(self.notes@) =~= note_ids(old(self).notes@) + id_range(
                    old(self).note_id as int,
                    self.note_id as int,
                ),
                old(self).plain_tail() ==> (self.notes == old(self).notes && self.note_id == old(self).note_id && ((spans@.len() == 0 && self.pos == old(self).pos) || (old(self).remaining().len() > 0 && self.pos == n
                    && crate::data::spans_view(spans@) == seq![
                    crate::data::SpanV::Text {
                        text: old(self).remaining(),
                    },
                ]))),
                sp_inline(old(self).src(), old(self).ist()) == (match sp_inline(
                    old(self).src(),
                    self.ist(),
                ) {
                    Result::Ok(p) => Result::<(Seq<crate::data::SpanV>, InSt), ErrV>::Ok(
                        (crate::data::spans_view(spans@) + p.0, p.1),
                    ),
                    Result::Err(e) => Result::Err(e),
                }),
            decreases n - self.pos,
        {
            let ghost mid = *self;
            let sp = match self.parse_cite() {
                Result::Ok(sp) => sp,
                Result::Err(e) => {
                    return Result::Err(e);
                },
            };
            proof {
                lemma_id_range_concat(
                    old(self).note_id as int,
                    mid.note_id as int,
                    self.note_id as int,
                );
                assert(note_ids(self.notes@) =~= note_ids(old(self).notes@) + id_range(
                    old(self).note_id as int,
                    self.note_id as int,
                ));
            }
            let ghost spans0 = spans@;
            let ghost spg = sp;
            spans.push(sp);
            proof {
                crate::data::lemma_spans_view_push(spans0, spg);
                assert(mid.at() < self.at() <= self.src().len());
                match sp_inline(old(self).src(), self.ist()) {
                    Result::Ok(p2) => {
                        assert(crate::data::spans_view(spans@) + p2.0
                            =~= crate::data::spans_view(spans0) + (seq![
                            crate::data::span_view(spg),
                        ] + p2.0));
                    },
                    Result::Err(e) => {},
                }
                if old(self).plain_tail() {
                    assert(mid.plain_tail());
                    assert(mid.remaining() == old(self).remaining());
                    assert(crate::data::spans_view(spans@) =~= seq![
                        crate::data::SpanV::Text { text: old(self).remaining() },
                    ]) by {
                        crate::data::lemma_spans_view(spans@);
                    }
                }
            }
        }
        proof {
            if old(self).plain_tail() {
                let s = old(self).src();
                let i = self.at();
                if i < s.len() {
                    assert(plain_char(s[i]));
                    if starts_with_at(s, i, seq!['\r', '\n']) {
                        assert(s.subrange(i, i + 2)[0] == s[i]);
                    }
                    assert(false);
                }
                if spans@.len() == 0 {
                    assert(old(self).remaining().len() == 0);
                    assert(crate::data::spans_view(spans@) =~= Seq::<crate::data::SpanV>::empty());
                }
            }
        }
        self.is_eol();
        let ghost sp0 = spans@;
        let r_inl = crate::data::Inline(spans);
        proof {
            assert(r_inl.0@ == sp0);
            assert(crate::data::inline_view(r_inl) == crate::data::spans_view(sp0));
            if old(self).plain_tail() {
                assert(self.at() == old(self).src().len());
                assert(self.notes == old(self).notes);
                assert(self.note_id == old(self).note_id);
                if old(self).remaining().len() == 0 {
                    assert(sp0.len() == 0);
                    assert(crate::data::spans_view(sp0) =~= Seq::<crate::data::SpanV>::empty());
                    assert(crate::data::inline_view(r_inl) == Seq::<crate::data::SpanV>::empty());
                } else {
                    assert(crate::data::inline_view(r_inl) == seq![
                        crate::data::SpanV::Text { text: old(self).remaining() },
                    ]);
                }
            }
        }
        Result::Ok(r_inl)
    }
}

} // verus!

verus! {

// ------------------------------------------------------------------
// Heading support: deep copies, anchor text, TOC insertion
// ------------------------------------------------------------------
/// The plain-text anchor source of heading spans from index `i` on:
/// descending into bold, italic and link text, taking math, code and text
/// content verbatim, and skipping citations.
pub open spec fn anchor_from(s: Seq<crate::data::SpanV>, i: int) -> Seq<char>
    decreases s, s.len() - i,
{
    if i < 0 || i >= s.len() {
        Seq::empty()
    } else {
        match s[i] {
            crate::data::SpanV::Cite { id } => anchor_from(s, i + 1),
            crate::data::SpanV::Link { text, url } => anchor_from(text, 0) + anchor_from(s, i + 1),
            crate::data::SpanV::Bold { text } => anchor_from(text, 0) + anchor_from(s, i + 1),
            crate::data::SpanV::Ital { text } => anchor_from(text, 0) + anchor_from(s, i + 1),
            crate::data::SpanV::Math { math } => math + anchor_from(s, i + 1),
            crate::data::SpanV::Code { code } => code + anchor_from(s, i + 1),
            crate::data::SpanV::Text { text } => text + anchor_from(s, i + 1),
        }
    }
}

/// The plain-text anchor source of heading spans.
pub open spec fn anchor_text(s: Seq<crate::data::SpanV>) -> Seq<char> {
    anchor_from(s, 0)
}

/// Appends the anchor text of the spans of `v` from index `i` on to `out`.
#[verifier::loop_isolation(false)]
fn push_anchor(out: &mut String, v: &Vec<crate::data::Span>, i: usize)
    requires
        i <= v@.len(),
    ensures
        final(out)@ == old(out)@ + anchor_from(crate::data::spans_view(v@), i as int),
    decreases v@, v@.len() - i,
{
    proof {
        crate::data::lemma_spans_view(v@);
    }
    if i == v.len() {
        proof {
            assert(final(out)@ =~= old(out)@ + anchor_from(
                crate::data::spans_view(v@),
                i as int,
            ));
        }
        return ;
    }
    match &v[i] {
        crate::data::Span::Cite { id } => {},
        crate::data::Span::Link { text, url } => {
            proof {
                assert(decreases_to!(v@ => v@[i as int]));
                assert(decreases_to!(v@[i as int] => text.0@));
            }
            push_anchor(out, &text.0, 0);
        },
        crate::data::Span::Bold { text } => {
            proof {
                assert(decreases_to!(v@ => v@[i as int]));
                assert(decreases_to!(v@[i as int] => text.0@));
            }
            push_anchor(out, &text.0, 0);
        },
        crate::data::Span::Ital { text } => {
            proof {
                assert(decreases_to!(v@ => v@[i as int]));
                assert(decreases_to!(v@[i as int] => text.0@));
            }
            push_anchor(out, &text.0, 0);
        },
        crate::data::Span::Math { math } => {
            out.append(math.as_str());
        },
        crate::data::Span::Code { code } => {
            out.append(code.as_str());
        },
        crate::data::Span::Text { text } => {
            out.append(text.as_str());
        },
    }
    push_anchor(out, v, i + 1);
    proof {
        assert(final(out)@ =~= old(out)@ + anchor_from(crate::data::spans_view(v@), i as int));
    }
}

/// The heading anchor id for anchor text `anchor` seen `count` times
/// before: the text itself on first occurrence, else the text with a
/// numeric suffix.
pub open spec fn suffixed_id(anchor: Seq<char>, count: nat) -> Seq<char> {
    if count == 0 {
        anchor
    } else {
        anchor + seq!['-'] + crate::text::dec_rep(count)
    }
}

/// The spans a heading contributes to its table-of-contents entry:
/// citations are dropped and a link contributes its text.
pub open spec fn toc_flatten_spec(s: Seq<crate::data::SpanV>) -> Seq<crate::data::SpanV>
    decreases s,
{
    if s.len() == 0 {
        Seq::empty()
    } else {
        (match s[0] {
            crate::data::SpanV::Cite { id } => Seq::<crate::data::SpanV>::empty(),
            crate::data::SpanV::Link { text, url } => text,
            _ => seq![s[0]],
        }) + toc_flatten_spec(s.drop_first())
    }
}

/// `toc_flatten_spec` over a sequence extended by one span.
pub proof fn lemma_toc_flatten_push(s: Seq<crate::data::SpanV>, x: crate::data::SpanV)
    ensures
        toc_flatten_spec(s.push(x)) == toc_flatten_spec(s) + (match x {
            crate::data::SpanV::Cite { id } => Seq::<crate::data::SpanV>::empty(),
            crate::data::SpanV::Link { text, url } => text,
            _ => seq![x],
        }),
    decreases s.len(),
{
    if s.len() == 0 {
        assert(s.push(x)[0] == x);
        assert(s.push(x).drop_first() =~= Seq::<crate::data::SpanV>::empty());
        assert(toc_flatten_spec(s.push(x).drop_first()) == Seq::<crate::data::SpanV>::empty());
        assert(toc_flatten_spec(s) == Seq::<crate::data::SpanV>::empty());
        assert(toc_flatten_spec(s.push(x)) =~= toc_flatten_spec(s) + (match x {
            crate::data::SpanV::Cite { id } => Seq::<crate::data::SpanV>::empty(),
            crate::data::SpanV::Link { text, url } => text,
            _ => seq![x],
        }));
    } else {
        assert(s.push(x)[0] == s[0]);
        assert(s.push(x).drop_first() =~= s.drop_first().push(x));
        lemma_toc_flatten_push(s.drop_first(), x);
        assert(toc_flatten_spec(s.push(x)) =~= toc_flatten_spec(s) + (match x {
            crate::data::SpanV::Cite { id } => Seq::<crate::data::SpanV>::empty(),
            crate::data::SpanV::Link { text, url } => text,
            _ => seq![x],
        }));
    }
}

/// The table-of-contents spans of heading spans `v`.
fn toc_flatten(v: &Vec<crate::data::Span>) -> (r: Vec<crate::data::Span>)
    ensures
        crate::data::spans_view(r@) == toc_flatten_spec(crate::data::spans_view(v@)),
{
    let mut out: Vec<crate::data::Span> = Vec::new();
    let n = v.len();
    let mut j: usize = 0;
    while j < n
        invariant
            0 <= j <= n,
            n == v@.len(),
            crate::data::spans_view(out@) == toc_flatten_spec(
                crate::data::spans_view(v@.subrange(0, j as int)),
            ),
        decreases n - j,
    {
        let ghost out0 = out@;
        let ghost pref = crate::data::spans_view(v@.subrange(0, j as int));
        let ghost spv = crate::data::span_view(v@[j as int]);
        proof {
            crate::data::lemma_spans_view(v@);
            crate::data::lemma_spans_view(v@.subrange(0, j as int));
            crate::data::lemma_spans_view(v@.subrange(0, j + 1));
            assert(crate::data::spans_view(v@.subrange(0, j + 1)) =~= pref.push(spv));
            lemma_toc_flatten_push(pref, spv);
        }
        match &v[j] {
            crate::data::Span::Cite { id } => {
                proof {
                    assert(crate::data::spans_view(out@) =~= toc_flatten_spec(pref.push(spv)));
                }
            },
            crate::data::Span::Link { text, url } => {
                let mut k: usize = 0;
                let m = text.0.len();
                while k < m
                    invariant
                        0 <= k <= m,
                        m == text.0@.len(),
                        out@.len() == out0.len() + k,
                        forall|t: int| 0 <= t < out0.len() ==> out@[t] == out0[t],
                        forall|t: int|
                            0 <= t < k ==> crate::data::span_view(out@[out0.len() + t])
                                == crate::data::span_view(text.0@[t]),
                    decreases m - k,
                {
                    let sp = crate::data::clone_span(&text.0[k]);
                    out.push(sp);
                    k += 1;
                }
                proof {
                    crate::data::lemma_spans_view(out0);
                    crate::data::lemma_spans_view(out@);
                    crate::data::lemma_spans_view(text.0@);
                    assert(spv == crate::data::SpanV::Link {
                        text: crate::data::spans_view(text.0@),
                        url: url@,
                    });
                    assert(crate::data::spans_view(out@) =~= toc_flatten_spec(pref)
                        + crate::data::spans_view(text.0@));
                    assert(crate::data::spans_view(out@) =~= toc_flatten_spec(pref.push(spv)));
                }
            },
            other => {
                let sp = crate::data::clone_span(other);
                let ghost spg = sp;
                out.push(sp);
                proof {
                    crate::data::lemma_spans_view(out0);
                    crate::data::lemma_spans_view(out@);
                    assert(out@ =~= out0.push(spg));
                    assert(crate::data::spans_view(out@) =~= toc_flatten_spec(pref).push(
                        crate::data::span_view(spg),
                    ));
                    assert(!(spv is Cite) && !(spv is Link));
                    assert(crate::data::spans_view(out@) =~= toc_flatten_spec(pref.push(spv)));
                }
            },
        }
        j += 1;
    }
    proof {
        assert(v@.subrange(0, n as int) =~= v@);
    }
    out
}

// ------------------------------------------------------------------
// TOC insertion by level descent
// ------------------------------------------------------------------
/// Where a new entry lands when descending `depth` times through the last
/// item's nested list; nothing when a descent target is missing.
pub open spec fn toc_insert_spec(l: crate::data::ListV, depth: int, e: crate::data::ItemV)
    -> Option<crate::data::ListV>
    decreases depth,
{
    if depth <= 0 {
        Option::Some(crate::data::ListV { ordered: l.ordered, items: l.items.push(e) })
    } else if l.items.len() == 0 {
        Option::None
    } else {
        match toc_insert_spec(l.items.last().list, depth - 1, e) {
            Option::None => Option::None,
            Option::Some(sub) => Option::Some(
                crate::data::ListV {
                    ordered: l.ordered,
                    items: l.items.update(
                        l.items.len() - 1,
                        crate::data::ItemV { item: l.items.last().item, list: sub },
                    ),
                },
            ),
        }
    }
}

/// Inserts `entry` after descending `depth` times through the last item's
/// nested list; reports failure, leaving the list as it was, when a descent
/// target is missing.
fn toc_insert(list: &mut crate::data::List, depth: u32, entry: crate::data::ListItem) -> (ok:
    bool)
    ensures
        ok ==> Option::Some(crate::data::list_view(*final(list))) == toc_insert_spec(
            crate::data::list_view(*old(list)),
            depth as int,
            crate::data::item_view(entry),
        ),
        !ok ==> crate::data::list_view(*final(list)) == crate::data::list_view(*old(list))
            && toc_insert_spec(
            crate::data::list_view(*old(list)),
            depth as int,
            crate::data::item_view(entry),
        ) is None,
    decreases depth,
{
    let ghost eg = entry;
    if depth == 0 {
        let ghost items0 = list.items@;
        list.items.push(entry);
        proof {
            crate::data::lemma_items_view(items0);
            crate::data::lemma_items_view(list.items@);
            assert(crate::data::items_view(list.items@) =~= crate::data::items_view(items0).push(
                crate::data::item_view(eg),
            ));
        }
        return true;
    }
    let last = list.items.pop();
    match last {
        Option::None => {
            proof {
                crate::data::lemma_items_view(old(list).items@);
            }
            false
        },
        Option::Some(mut last) => {
            let ghost last0 = last;
            let ghost items0 = old(list).items@;
            let ok = toc_insert(&mut last.list, depth - 1, entry);
            let ghost lastnew = last;
            list.items.push(last);
            proof {
                crate::data::lemma_items_view(items0);
                crate::data::lemma_items_view(items0.drop_last());
                crate::data::lemma_items_view(list.items@);
                assert(list.items@ =~= items0.drop_last().push(lastnew));
                assert(crate::data::items_view(list.items@) =~= crate::data::items_view(
                    items0.drop_last(),
                ).push(crate::data::item_view(lastnew)));
                assert(crate::data::items_view(items0).last() == crate::data::item_view(last0));
                if ok {
                    assert(crate::data::items_view(items0).update(
                        crate::data::items_view(items0).len() - 1,
                        crate::data::ItemV {
                            item: crate::data::items_view(items0).last().item,
                            list: crate::data::list_view(lastnew.list),
                        },
                    ) =~= crate::data::items_view(items0.drop_last()).push(
                        crate::data::item_view(lastnew),
                    ));
                } else {
                    assert(crate::data::items_view(items0) =~= crate::data::items_view(
                        items0.drop_last(),
                    ).push(crate::data::item_view(lastnew)));
                }
            }
            ok
        },
    }
}

// ------------------------------------------------------------------
// Reference-group ids
// ------------------------------------------------------------------
/// The citation ids a block carries as a reference group (none for any
/// other block).
pub open spec fn ref_ids_block(b: crate::data::BlockV) -> Seq<int> {
    match b {
        crate::data::BlockV::Ref(notes) => Seq::new(notes.len(), |i: int| notes[i].1),
        _ => Seq::empty(),
    }
}

/// The reference-group ids of a block sequence, in order.
pub open spec fn ref_ids(s: Seq<crate::data::BlockV>) -> Seq<int>
    decreases s,
{
    if s.len() == 0 {
        Seq::empty()
    } else {
        ref_ids_block(s[0]) + ref_ids(s.drop_first())
    }
}

/// `ref_ids` over a sequence extended by one block.
pub proof fn lemma_ref_ids_push(s: Seq<crate::data::BlockV>, x: crate::data::BlockV)
    ensures
        ref_ids(s.push(x)) == ref_ids(s) + ref_ids_block(x),
    decreases s.len(),
{
    if s.len() == 0 {
        assert(s.push(x).drop_first() =~= Seq::<crate::data::BlockV>::empty());
        assert(ref_ids(s.push(x).drop_first()) == Seq::<int>::empty());
        assert(ref_ids(s) == Seq::<int>::empty());
        assert(ref_ids(s.push(x)) =~= ref_ids(s) + ref_ids_block(x));
    } else {
        assert(s.push(x)[0] == s[0]);
        assert(s.push(x).drop_first() =~= s.drop_first().push(x));
        lemma_ref_ids_push(s.drop_first(), x);
        assert(ref_ids(s.push(x)) =~= ref_ids(s) + ref_ids_block(x));
    }
}

/// Every id at its index: the sequence is exactly 1, 2, 3, … in order.
pub open spec fn consecutive_from_one(s: Seq<int>) -> bool {
    forall|i: int| 0 <= i < s.len() ==> s[i] == i + 1
}

/// A block the document emits: never an empty paragraph (those are
/// discarded) and never a level-one heading (that one only sets the title).
pub open spec fn body_block(b: crate::data::BlockV) -> bool {
    &&& !(b matches crate::data::BlockV::Paragraph { text } && text.len() == 0)
    &&& !(b matches crate::data::BlockV::Header { header, level, id } && level == 1)
}

/// The shape of every parsed document: at least the unconditional final
/// flush, which makes the last block a reference group, and every block a
/// body block.
pub open spec fn doc_shape(content: Seq<crate::data::BlockV>) -> bool {
    &&& content.len() > 0
    &&& content.last() matches crate::data::BlockV::Ref(notes)
    &&& forall|k: int| 0 <= k < content.len() ==> body_block(#[trigger] content[k])
}

/// Whether the text ends with the given suffix.
pub open spec fn seq_ends_with(s: Seq<char>, suf: Seq<char>) -> bool {
    s.len() >= suf.len() && s.subrange(s.len() - suf.len(), s.len() as int) == suf
}

/// Whether the string ends with the given suffix.
fn str_ends_with(s: &String, suf: &str) -> (b: bool)
    ensures
        b == seq_ends_with(s@, suf@),
{
    let sl = s.as_str();
    let m = sl.unicode_len();
    let k = suf.unicode_len();
    if k > m {
        return false;
    }
    let mut j: usize = 0;
    while j < k
        invariant
            sl@ == s@,
            m == s@.len(),
            k == suf@.len(),
            k <= m,
            0 <= j <= k,
            forall|t: int| 0 <= t < j ==> s@[m - k + t] == suf@[t],
        decreases k - j,
    {
        if sl.get_char(m - k + j) != suf.get_char(j) {
            proof {
                assert(s@.subrange(s@.len() - suf@.len(), s@.len() as int)[j as int] != suf@[j as int]);
            }
            return false;
        }
        j += 1;
    }
    proof {
        assert(s@.subrange(s@.len() - suf@.len(), s@.len() as int) =~= suf@);
    }
    true
}

} // verus!

verus! {

/// A document in which every character is plain and no block prefix opens
/// the text: such a document is one paragraph.
pub open spec fn plain_doc(s: Seq<char>) -> bool {
    plain_seq(s) && (s.len() > 0 ==> (s[0] != '#' && s[0] != '>' && s[0] != '-' && s[0] != '+'))
}

/// No prefix occurs at position `i` when its first character is not there.
pub proof fn lemma_prefix_head(s: Seq<char>, i: int, pre: Seq<char>)
    requires
        0 <= i,
        pre.len() > 0,
        i < s.len() ==> s[i] != pre[0],
    ensures
        !starts_with_at(s, i, pre),
{
    if starts_with_at(s, i, pre) {
        assert(s.subrange(i, i + pre.len())[0] == s[i]);
        assert(false);
    }
}

/// No two-character prefix occurs at position `i` when its second character
/// is not at `i + 1`.
pub proof fn lemma_prefix_second(s: Seq<char>, i: int, pre: Seq<char>)
    requires
        0 <= i,
        pre.len() >= 2,
        i + 1 < s.len() ==> s[i + 1] != pre[1],
    ensures
        !starts_with_at(s, i, pre),
{
    if starts_with_at(s, i, pre) {
        assert(s.subrange(i, i + pre.len())[1] == s[i + 1]);
        assert(false);
    }
}

impl Parser {
    /// A parser that has not yet consumed input, cited, or emitted a block.
    pub closed spec fn fresh(&self) -> bool {
        &&& self.pos == 0
        &&& self.content@.len() == 0
        &&& self.notes@.len() == 0
        &&& self.note_id == 0
    }

    /// The first character of the remaining text opens no block construct.
    pub closed spec fn plain_head(&self) -> bool {
        self.at() < self.src().len() ==> (self.src()[self.at()] != '#' && self.src()[self.at()]
            != '>' && self.src()[self.at()] != '-' && self.src()[self.at()] != '+')
    }

    /// The views of the blocks emitted so far.
    pub closed spec fn content_view(&self) -> Seq<crate::data::BlockV> {
        crate::data::blocks_view(self.content@)
    }

    /// The document title collected so far.
    pub closed spec fn title_view(&self) -> Seq<char> {
        self.title@
    }

    /// The view of the table of contents collected so far.
    pub closed spec fn toc_view(&self) -> crate::data::ListV {
        crate::data::list_view(self.toc)
    }

    /// No pending notes remain in the footnote collector.
    pub closed spec fn notes_empty(&self) -> bool {
        self.notes@.len() == 0
    }

    /// Drains the footnote collector into a reference-group block: the
    /// pending notes, oldest first, leave the buffer empty.
    fn catch_refs(&mut self) -> (b: crate::data::Block)
        requires
            old(self).wf(),
        ensures
            final(self).wf(),
            final(self).chs@ == old(self).chs@,
            final(self).pos == old(self).pos,
            final(self).headers == old(self).headers,
            final(self).title == old(self).title,
            final(self).toc == old(self).toc,
            final(self).content == old(self).content,
            final(self).note_id == old(self).note_id,
            final(self).notes@.len() == 0,
            crate::data::block_view(b) == crate::data::BlockV::Ref(
                crate::data::notes_view(old(self).notes@),
            ),
            ref_ids_block(crate::data::block_view(b)) =~= note_ids(old(self).notes@),
    {
        let mut refs: Vec<(crate::data::Inline, usize)> = Vec::new();
        refs.append(&mut self.notes);
        proof {
            assert(refs@ =~= old(self).notes@);
            crate::data::lemma_notes_view(old(self).notes@);
        }
        crate::data::Block::Ref(refs)
    }

    /// Parses one paragraph: a single inline line.
    fn parse_paragraph(&mut self) -> (r: Result<crate::data::Block, SyntaxError>)
        requires
            old(self).wf(),
        ensures
            final(self).wf(),
            Parser::frame(*old(self), *final(self)),
            r matches Ok(b) ==> (ref_ids_block(crate::data::block_view(b)) + note_ids(
                final(self).notes@,
            ) =~= note_ids(old(self).notes@) + id_range(
                old(self).note_id as int,
                final(self).note_id as int,
            )),
            r is Ok ==> final(self).at() > old(self).at() || old(self).at() == old(self).src().len(),
            old(self).plain_tail() ==> (r matches Ok(b) && final(self).at() == old(self).src().len()
                && final(self).notes == old(self).notes && final(self).note_id == old(self).note_id
                && crate::data::block_view(b) == (crate::data::BlockV::Paragraph {
                text: (if old(self).remaining().len() == 0 {
                    Seq::<crate::data::SpanV>::empty()
                } else {
                    seq![crate::data::SpanV::Text { text: old(self).remaining() }]
                }),
            })),
            r matches Ok(b) ==> (b matches crate::data::Block::Paragraph { text }),
            sp_paragraph(old(self).src(), old(self).ist()) == iblock_res(r, final(self).ist()),
    {
        let text = match self.parse_inline() {
            Result::Ok(t) => t,
            Result::Err(e) => {
                return Result::Err(e);
            },
        };
        Result::Ok(crate::data::Block::Paragraph { text })
    }

    /// Parses one math block: raw source up to the closing `$$`.
    fn parse_math_block(&mut self) -> (r: Result<crate::data::Block, SyntaxError>)
        requires
            old(self).wf(),
        ensures
            final(self).wf(),
            Parser::frame(*old(self), *final(self)),
            final(self).notes == old(self).notes,
            final(self).note_id == old(self).note_id,
            r is Ok <==> scan_found(old(self).src(), old(self).at(), seq!["$$"@]),
            r matches Ok(b) ==> (b matches crate::data::Block::MathBlock { math } && math@ == old(self).src().subrange(
                old(self).at(),
                scan_end(old(self).src(), old(self).at(), seq!["$$"@]),
            ) && final(self).at() == scan_end(old(self).src(), old(self).at(), seq!["$$"@]) + 2),
            sp_math(old(self).src(), old(self).ist()) == iblock_res(r, final(self).ist()),
    {
        let terms: &[&str] = &["$$"];
        proof {
            reveal_strlit("$$");
            assert(term_views(terms@) =~= seq!["$$"@]);
        }
        let r0 = self.read_until_trim(terms);
        proof {
            if r0 is Ok {
                let sq = old(self).src();
                let i = old(self).at();
                lemma_scan_end_matches(sq, i, term_views(terms@));
                let e = scan_end(sq, i, term_views(terms@));
                let j = choose|j: int|
                    0 <= j < term_views(terms@).len() && starts_with_at(
                        sq,
                        e,
                        term_views(terms@)[j],
                    );
                assert(first_term(term_views(terms@), sq, e) == "$$"@);
            }
        }
        match r0 {
            Result::Ok(math) => Result::Ok(crate::data::Block::MathBlock { math }),
            Result::Err(e) => Result::Err(e),
        }
    }

    /// Parses one code block: the language tag to the end of the line, then
    /// raw source up to the closing fence.
    fn parse_code_block(&mut self) -> (r: Result<crate::data::Block, SyntaxError>)
        requires
            old(self).wf(),
        ensures
            final(self).wf(),
            Parser::frame(*old(self), *final(self)),
            final(self).notes == old(self).notes,
            final(self).note_id == old(self).note_id,
            r is Ok <==> ({
                let tv1 = seq!["\n"@, "\r\n"@];
                &&& scan_found(old(self).src(), old(self).at(), tv1)
                &&& ({
                    let e1 = scan_end(old(self).src(), old(self).at(), tv1);
                    let p2 = e1 + first_term(tv1, old(self).src(), e1).len();
                    scan_found(old(self).src(), p2, seq!["```"@])
                })
            }),
            r matches Ok(b) ==> (b matches crate::data::Block::CodeBlock { lang, code } && ({
                let tv1 = seq!["\n"@, "\r\n"@];
                let e1 = scan_end(old(self).src(), old(self).at(), tv1);
                let p2 = e1 + first_term(tv1, old(self).src(), e1).len();
                &&& lang@ == old(self).src().subrange(old(self).at(), e1)
                &&& code@ == old(self).src().subrange(p2, scan_end(old(self).src(), p2, seq!["```"@]))
            })),
            sp_code(old(self).src(), old(self).ist()) == iblock_res(r, final(self).ist()),
    {
        let terms1: &[&str] = &["\n", "\r\n"];
        let terms2: &[&str] = &["```"];
        proof {
            reveal_strlit("\n");
            reveal_strlit("\r\n");
            reveal_strlit("```");
            assert(term_views(terms1@) =~= seq!["\n"@, "\r\n"@]);
            assert(term_views(terms2@) =~= seq!["```"@]);
        }
        let lang = match self.read_until_trim(terms1) {
            Result::Ok(l) => l,
            Result::Err(e) => {
                return Result::Err(e);
            },
        };
        let ghost mid = *self;
        let r2 = self.read_until_trim(terms2);
        proof {
            if r2 is Ok {
                let sq = old(self).src();
                lemma_scan_end_matches(sq, mid.at(), seq!["```"@]);
                let e2 = scan_end(sq, mid.at(), seq!["```"@]);
                assert(first_term(seq!["```"@], sq, e2) == "```"@);
            }
        }
        let code = match r2 {
            Result::Ok(c) => c,
            Result::Err(e) => {
                return Result::Err(e);
            },
        };
        Result::Ok(crate::data::Block::CodeBlock { lang, code })
    }

    /// Parses one blockquote: inline lines until the closing `<<` is
    /// consumed; fails when the end of the text comes first.
    fn parse_blockquote(&mut self) -> (r: Result<crate::data::Block, SyntaxError>)
        requires
            old(self).wf(),
        ensures
            final(self).wf(),
            Parser::frame(*old(self), *final(self)),
            r is Ok ==> note_ids(final(self).notes@) =~= note_ids(old(self).notes@) + id_range(
                old(self).note_id as int,
                final(self).note_id as int,
            ),
            r matches Ok(b) ==> (b matches crate::data::Block::Blockquote { lines }),
            sp_blockquote(old(self).src(), old(self).ist()) == iblock_res(r, final(self).ist()),
    {
        let mut lines: Vec<crate::data::Inline> = Vec::new();
        let n = self.chs.len();
        proof {
            reveal_strlit("<<");
            match sp_bq_lines(old(self).src(), old(self).ist()) {
                Result::Ok(p) => {
                    assert(crate::data::inlines_view(lines@) + p.0 =~= p.0);
                },
                Result::Err(e) => {},
            }
        }
        loop
            invariant
                self.wf(),
                n == self.src().len(),
                Parser::frame(*old(self), *self),
                note_ids(self.notes@) =~= note_ids(old(self).notes@) + id_range(
                    old(self).note_id as int,
                    self.note_id as int,
                ),
                sp_bq_lines(old(self).src(), old(self).ist()) == (match sp_bq_lines(
                    old(self).src(),
                    self.ist(),
                ) {
                    Result::Ok(p) => Result::<(Seq<Seq<crate::data::SpanV>>, InSt), ErrV>::Ok(
                        (crate::data::inlines_view(lines@) + p.0, p.1),
                    ),
                    Result::Err(e) => Result::Err(e),
                }),
            decreases n - self.pos,
        {
            proof {
                reveal_strlit("<<");
            }
            let ghost before = *self;
            if self.starts_with_next("<<") {
                proof {
                    assert(self.ist() == (InSt {
                        pos: before.ist().pos + 2,
                        note_id: before.ist().note_id,
                        notes: before.ist().notes,
                    }));
                    assert(crate::data::inlines_view(lines@)
                        + Seq::<Seq<crate::data::SpanV>>::empty() =~= crate::data::inlines_view(
                        lines@,
                    ));
                }
                return Result::Ok(crate::data::Block::Blockquote { lines });
            }
            if self.pos >= n {
                let terms: &[&str] = &["<<"];
                proof {
                    assert(term_views(terms@) =~= seq!["<<"@]);
                }
                return Result::Err(SyntaxError::Expect(terms_to_strings(terms)));
            }
            let ghost mid = *self;
            let line = match self.parse_inline() {
                Result::Ok(l) => l,
                Result::Err(e) => {
                    return Result::Err(e);
                },
            };
            proof {
                lemma_id_range_concat(
                    old(self).note_id as int,
                    mid.note_id as int,
                    self.note_id as int,
                );
                assert(note_ids(self.notes@) =~= note_ids(old(self).notes@) + id_range(
                    old(self).note_id as int,
                    self.note_id as int,
                ));
            }
            let ghost lineg = line;
            let ghost lines0 = lines@;
            lines.push(line);
            proof {
                crate::data::lemma_inlines_view_push(lines0, lineg);
                assert(mid.at() < self.at() <= self.src().len());
                match sp_bq_lines(old(self).src(), self.ist()) {
                    Result::Ok(p2) => {
                        assert(crate::data::inlines_view(lines@) + p2.0
                            =~= crate::data::inlines_view(lines0) + (seq![
                            crate::data::inline_view(lineg),
                        ] + p2.0));
                    },
                    Result::Err(e) => {},
                }
            }
        }
    }

    /// Parses one list at the given minimum indentation threshold: at each
    /// line, leading spaces are counted and consumed when they reach the
    /// threshold, a `- ` or `+ ` marker opens an item whose body is one
    /// inline line and whose sub-list is parsed at threshold one deeper;
    /// anything else ends the list.
    #[verifier::rlimit(100)]
    #[verifier::spinoff_prover]
    fn parse_list(&mut self, min_indent: usize) -> (r: Result<crate::data::List, SyntaxError>)
        requires
            old(self).wf(),
        ensures
            final(self).wf(),
            Parser::frame(*old(self), *final(self)),
            r is Ok ==> note_ids(final(self).notes@) =~= note_ids(old(self).notes@) + id_range(
                old(self).note_id as int,
                final(self).note_id as int,
            ),
            (r is Ok && min_indent == 0 && (starts_with_at(old(self).src(), old(self).at(), "- "@)
                || starts_with_at(old(self).src(), old(self).at(), "+ "@))) ==> final(self).at()
                > old(self).at(),
            sp_list(old(self).src(), old(self).ist(), min_indent as int) == list_res(
                r,
                final(self).ist(),
            ),
        decreases self.chs@.len() - self.pos,
    {
        let mut ordered = false;
        let mut items: Vec<crate::data::ListItem> = Vec::new();
        let n = self.chs.len();
        proof {
            assert(list_compose(
                old(self).src(),
                old(self).ist(),
                self.ist(),
                ordered,
                crate::data::items_view(items@),
                min_indent as int,
            )) by {
                reveal(list_compose);
                lemma_sp_list_shape(old(self).src(), old(self).ist(), min_indent as int);
                match sp_list(old(self).src(), old(self).ist(), min_indent as int) {
                    Result::Ok(p) => {
                        crate::data::lemma_items_view(items@);
                        assert(crate::data::items_view(items@) + p.0.items =~= p.0.items);
                        assert((crate::data::ListV {
                            ordered: if p.0.items.len() == 0 {
                                ordered
                            } else {
                                p.0.ordered
                            },
                            items: crate::data::items_view(items@) + p.0.items,
                        }) =~= p.0);
                    },
                    Result::Err(e) => {},
                }
            }
        }
        loop
            invariant
                self.wf(),
                n == self.src().len(),
                Parser::frame(*old(self), *self),
                note_ids(self.notes@) =~= note_ids(old(self).notes@) + id_range(
                    old(self).note_id as int,
                    self.note_id as int,
                ),
                list_compose(
                    old(self).src(),
                    old(self).ist(),
                    self.ist(),
                    ordered,
                    crate::data::items_view(items@),
                    min_indent as int,
                ),
            decreases n - self.pos,
        {
            let ghost head = *self;
            if self.pos >= n {
                proof {
                    reveal_strlit("- ");
                    reveal_strlit("+ ");
                    assert(sp_list(old(self).src(), old(self).ist(), min_indent as int)
                        == Result::<(crate::data::ListV, InSt), ErrV>::Ok(
                        (
                            crate::data::ListV {
                                ordered,
                                items: crate::data::items_view(items@),
                            },
                            self.ist(),
                        ),
                    )) by {
                        reveal(list_compose);
                        assert(crate::data::items_view(items@)
                            + Seq::<crate::data::ItemV>::empty() =~= crate::data::items_view(
                            items@,
                        ));
                    }
                }
                return Result::Ok(crate::data::List { ordered, items });
            }
            let mut ind: usize = 0;
            while self.pos + ind < n && self.chs[self.pos + ind] == ' '
                invariant
                    self.wf(),
                    n == self.src().len(),
                    self.pos + ind <= n,
                    forall|t: int| self.at() <= t < self.at() + ind ==> self.src()[t] == ' ',
                decreases n - self.pos - ind,
            {
                ind += 1;
            }
            proof {
                lemma_indent_len(self.src(), self.at(), ind as int);
            }
            if ind < min_indent {
                proof {
                    reveal_strlit("- ");
                    reveal_strlit("+ ");
                    assert(sp_list(old(self).src(), old(self).ist(), min_indent as int)
                        == Result::<(crate::data::ListV, InSt), ErrV>::Ok(
                        (
                            crate::data::ListV {
                                ordered,
                                items: crate::data::items_view(items@),
                            },
                            self.ist(),
                        ),
                    )) by {
                        reveal(list_compose);
                        assert(crate::data::items_view(items@)
                            + Seq::<crate::data::ItemV>::empty() =~= crate::data::items_view(
                            items@,
                        ));
                    }
                }
                return Result::Ok(crate::data::List { ordered, items });
            }
            self.pos = self.pos + ind;
            if self.starts_with_next("- ") {
                ordered = false;
                proof {
                    reveal_strlit("- ");
                    assert(ind + 2 <= self.at());
                }
                let ghost mid = *self;
                let item = match self.parse_inline() {
                    Result::Ok(i) => i,
                    Result::Err(e) => {
                        proof {
                            assert(sp_list(old(self).src(), old(self).ist(), min_indent as int)
                                == Result::<(crate::data::ListV, InSt), ErrV>::Err(err_view(e)))
                                by {
                                reveal(list_compose);
                            }
                        }
                        return Result::Err(e);
                    },
                };
                let ghost st2 = *self;
                let sub = match self.parse_list(ind + 1) {
                    Result::Ok(l) => l,
                    Result::Err(e) => {
                        proof {
                            assert(sp_list(old(self).src(), old(self).ist(), min_indent as int)
                                == Result::<(crate::data::ListV, InSt), ErrV>::Err(err_view(e)))
                                by {
                                reveal(list_compose);
                            }
                        }
                        return Result::Err(e);
                    },
                };
                proof {
                    lemma_id_range_concat(
                        old(self).note_id as int,
                        mid.note_id as int,
                        self.note_id as int,
                    );
                    assert(note_ids(self.notes@) =~= note_ids(old(self).notes@) + id_range(
                        old(self).note_id as int,
                        self.note_id as int,
                    ));
                }
                let ghost itemg = item;
                let ghost subg = sub;
                let ghost items0 = items@;
                items.push(crate::data::ListItem { item, list: sub });
                proof {
                    assert(list_compose(
                        old(self).src(),
                        old(self).ist(),
                        self.ist(),
                        false,
                        crate::data::items_view(items@),
                        min_indent as int,
                    )) by {
                        reveal(list_compose);
                        crate::data::lemma_items_view_push(items0, items@.last());
                        assert(items@ == items0.push(items@.last()));
                        assert(crate::data::item_view(items@.last()) == (crate::data::ItemV {
                            item: crate::data::inline_view(itemg),
                            list: crate::data::list_view(subg),
                        }));
                        lemma_sp_list_item_unfold(
                            old(self).src(),
                            head.ist(),
                            min_indent as int,
                            ind as int,
                            false,
                            crate::data::inline_view(itemg),
                            st2.ist(),
                            crate::data::list_view(subg),
                            self.ist(),
                        );
                        match sp_list(old(self).src(), self.ist(), min_indent as int) {
                            Result::Ok(p2) => {
                                assert(crate::data::items_view(items@) + p2.0.items
                                    =~= crate::data::items_view(items0) + (seq![
                                    crate::data::ItemV {
                                        item: crate::data::inline_view(itemg),
                                        list: crate::data::list_view(subg),
                                    },
                                ] + p2.0.items));
                            },
                            Result::Err(e) => {},
                        }
                    }
                }
            } else if self.starts_with_next("+ ") {
                ordered = true;
                proof {
                    reveal_strlit("+ ");
                    assert(ind + 2 <= self.at());
                }
                let ghost mid = *self;
                let item = match self.parse_inline() {
                    Result::Ok(i) => i,
                    Result::Err(e) => {
                        proof {
                            assert(sp_list(old(self).src(), old(self).ist(), min_indent as int)
                                == Result::<(crate::data::ListV, InSt), ErrV>::Err(err_view(e)))
                                by {
                                reveal(list_compose);
                            }
                        }
                        return Result::Err(e);
                    },
                };
                let ghost st2 = *self;
                let sub = match self.parse_list(ind + 1) {
                    Result::Ok(l) => l,
                    Result::Err(e) => {
                        proof {
                            assert(sp_list(old(self).src(), old(self).ist(), min_indent as int)
                                == Result::<(crate::data::ListV, InSt), ErrV>::Err(err_view(e)))
                                by {
                                reveal(list_compose);
                            }
                        }
                        return Result::Err(e);
                    },
                };
                proof {
                    lemma_id_range_concat(
                        old(self).note_id as int,
                        mid.note_id as int,
                        self.note_id as int,
                    );
                    assert(note_ids(self.notes@) =~= note_ids(old(self).notes@) + id_range(
                        old(self).note_id as int,
                        self.note_id as int,
                    ));
                }
                let ghost itemg = item;
                let ghost subg = sub;
                let ghost items0 = items@;
                items.push(crate::data::ListItem { item, list: sub });
                proof {
                    assert(list_compose(
                        old(self).src(),
                        old(self).ist(),
                        self.ist(),
                        true,
                        crate::data::items_view(items@),
                        min_indent as int,
                    )) by {
                        reveal(list_compose);
                        crate::data::lemma_items_view_push(items0, items@.last());
                        assert(items@ == items0.push(items@.last()));
                        assert(crate::data::item_view(items@.last()) == (crate::data::ItemV {
                            item: crate::data::inline_view(itemg),
                            list: crate::data::list_view(subg),
                        }));
                        lemma_sp_list_item_unfold(
                            old(self).src(),
                            head.ist(),
                            min_indent as int,
                            ind as int,
                            true,
                            crate::data::inline_view(itemg),
                            st2.ist(),
                            crate::data::list_view(subg),
                            self.ist(),
                        );
                        match sp_list(old(self).src(), self.ist(), min_indent as int) {
                            Result::Ok(p2) => {
                                assert(crate::data::items_view(items@) + p2.0.items
                                    =~= crate::data::items_view(items0) + (seq![
                                    crate::data::ItemV {
                                        item: crate::data::inline_view(itemg),
                                        list: crate::data::list_view(subg),
                                    },
                                ] + p2.0.items));
                            },
                            Result::Err(e) => {},
                        }
                    }
                }
            } else {
                proof {
                    reveal_strlit("- ");
                    reveal_strlit("+ ");
                    if min_indent == 0 && self.at() == old(self).at() && (starts_with_at(
                        old(self).src(),
                        old(self).at(),
                        "- "@,
                    ) || starts_with_at(old(self).src(), old(self).at(), "+ "@)) {
                        assert(false);
                    }
                    assert(sp_list(old(self).src(), old(self).ist(), min_indent as int)
                        == Result::<(crate::data::ListV, InSt), ErrV>::Ok(
                        (
                            crate::data::ListV {
                                ordered,
                                items: crate::data::items_view(items@),
                            },
                            self.ist(),
                        ),
                    )) by {
                        reveal(list_compose);
                        assert(sp_list(old(self).src(), head.ist(), min_indent as int)
                            == Result::<(crate::data::ListV, InSt), ErrV>::Ok(
                            (
                                crate::data::ListV { ordered: false, items: Seq::empty() },
                                self.ist(),
                            ),
                        ));
                        assert(crate::data::items_view(items@)
                            + Seq::<crate::data::ItemV>::empty() =~= crate::data::items_view(
                            items@,
                        ));
                    }
                }
                return Result::Ok(crate::data::List { ordered, items });
            }
        }
    }

    /// Parses one embed (`@[`caption`](`url`)`): an image when the URL ends
    /// in a raster-image suffix, else a link card left for the external
    /// metadata resolver to fill in a later pass.
    fn parse_embed(&mut self) -> (r: Result<crate::data::Block, SyntaxError>)
        requires
            old(self).wf(),
        ensures
            final(self).wf(),
            Parser::frame(*old(self), *final(self)),
            r is Ok ==> note_ids(final(self).notes@) =~= note_ids(old(self).notes@) + id_range(
                old(self).note_id as int,
                final(self).note_id as int,
            ),
            r matches Ok(b) ==> ((b matches crate::data::Block::Image { title, url }
                && (seq_ends_with(url@, ".png"@) || seq_ends_with(url@, ".jpg"@))) || (
            b matches crate::data::Block::LinkCard { title, image, url, description, site_name }
                && !seq_ends_with(url@, ".png"@) && !seq_ends_with(url@, ".jpg"@) && title@
                == Seq::<char>::empty() && image is None && description is None && site_name is None)),
            sp_embed(old(self).src(), old(self).ist()) == iblock_res(r, final(self).ist()),
    {
        let terms1: &[&str] = &["]("];
        proof {
            reveal_strlit("](");
            assert(term_views(terms1@) =~= seq!["]("@]);
        }
        let text = match self.parse_until_cite(terms1) {
            Result::Ok(v) => v,
            Result::Err(e) => {
                return Result::Err(e);
            },
        };
        let ghost mid = *self;
        let terms2: &[&str] = &[")"];
        proof {
            reveal_strlit(")");
            assert(term_views(terms2@) =~= seq![")"@]);
        }
        let r0 = self.read_until_trim(terms2);
        proof {
            if r0 is Ok {
                let sq = old(self).src();
                lemma_scan_end_matches(sq, mid.at(), seq![")"@]);
                let e = scan_end(sq, mid.at(), seq![")"@]);
                assert(first_term(seq![")"@], sq, e) == ")"@);
            }
        }
        let url = match r0 {
            Result::Ok(u) => u,
            Result::Err(e) => {
                return Result::Err(e);
            },
        };
        if str_ends_with(&url, ".png") || str_ends_with(&url, ".jpg") {
            Result::Ok(crate::data::Block::Image { title: crate::data::Inline(text), url })
        } else {
            Result::Ok(
                crate::data::Block::LinkCard {
                    title: String::new(),
                    image: Option::None,
                    url,
                    description: Option::None,
                    site_name: Option::None,
                },
            )
        }
    }

    /// Parses one table row. A row starting with `-` is a separator: it is
    /// consumed to the end of its line and ends the current row group. A row
    /// starting with `|` yields its cells, inline content between `|`
    /// delimiters, up to the line end. Anything else ends the row group
    /// without consuming.
    fn parse_table_row(&mut self) -> (r: Result<Option<Vec<crate::data::Inline>>, SyntaxError>)
        requires
            old(self).wf(),
        ensures
            final(self).wf(),
            Parser::frame(*old(self), *final(self)),
            r is Ok ==> note_ids(final(self).notes@) =~= note_ids(old(self).notes@) + id_range(
                old(self).note_id as int,
                final(self).note_id as int,
            ),
            r matches Ok(Some(row)) ==> final(self).at() > old(self).at(),
            (r is Ok && starts_with_at(old(self).src(), old(self).at(), "|"@)) ==> (r matches Ok(
                Some(row),
            )),
            (r is Ok && starts_with_at(old(self).src(), old(self).at(), "-"@)) ==> r matches Ok(
                Option::None,
            ),
            sp_table_row(old(self).src(), old(self).ist()) == row_res(r, final(self).ist()),
    {
        proof {
            reveal_strlit("-");
            reveal_strlit("|");
        }
        if self.starts_with_next("-") {
            let terms: &[&str] = &["\n", "\r\n"];
            proof {
                reveal_strlit("\n");
                reveal_strlit("\r\n");
                assert(term_views(terms@) =~= seq!["\n"@, "\r\n"@]);
            }
            match self.read_until_trim(terms) {
                Result::Ok(_) => {
                    proof {
                        if starts_with_at(old(self).src(), old(self).at(), "|"@) {
                            assert(old(self).src().subrange(old(self).at(), old(self).at() + 1)[0]
                                == old(self).src()[old(self).at()]);
                            assert(false);
                        }
                    }
                    return Result::Ok(Option::None);
                },
                Result::Err(e) => {
                    return Result::Err(e);
                },
            }
        }
        let ghost start = *self;
        if !self.starts_with_next("|") {
            return Result::Ok(Option::None);
        }
        let mut row: Vec<crate::data::Inline> = Vec::new();
        let n = self.chs.len();
        proof {
            match sp_cells(old(self).src(), self.ist()) {
                Result::Ok(p) => {
                    assert(crate::data::inlines_view(row@) + p.0 =~= p.0);
                },
                Result::Err(e) => {},
            }
        }
        while !self.at_eol_check()
            invariant
                self.wf(),
                n == self.src().len(),
                Parser::frame(*old(self), *self),
                self.at() > old(self).at(),
                note_ids(self.notes@) =~= note_ids(old(self).notes@) + id_range(
                    old(self).note_id as int,
                    self.note_id as int,
                ),
                sp_table_row(old(self).src(), old(self).ist()) == (match sp_cells(
                    old(self).src(),
                    self.ist(),
                ) {
                    Result::Ok(p) => Result::<
                        (Option<Seq<Seq<crate::data::SpanV>>>, InSt),
                        ErrV,
                    >::Ok((Option::Some(crate::data::inlines_view(row@) + p.0), p.1)),
                    Result::Err(e) => Result::Err(e),
                }),
            decreases n - self.pos,
        {
            let ghost mid = *self;
            let terms: &[&str] = &["|"];
            proof {
                reveal_strlit("|");
                assert(term_views(terms@) =~= seq!["|"@]);
            }
            let cell = match self.parse_until_cite(terms) {
                Result::Ok(v) => v,
                Result::Err(e) => {
                    return Result::Err(e);
                },
            };
            proof {
                lemma_id_range_concat(
                    old(self).note_id as int,
                    mid.note_id as int,
                    self.note_id as int,
                );
                assert(note_ids(self.notes@) =~= note_ids(old(self).notes@) + id_range(
                    old(self).note_id as int,
                    self.note_id as int,
                ));
            }
            let ghost cellg = cell@;
            let ghost row0 = row@;
            row.push(crate::data::Inline(cell));
            proof {
                crate::data::lemma_inlines_view_push(
                    row0,
                    crate::data::Inline(row@.last().0),
                );
                assert(row@ == row0.push(row@.last()));
                assert(crate::data::inline_view(row@.last()) == crate::data::spans_view(cellg));
                assert(mid.at() < self.at() <= self.src().len());
                match sp_cells(old(self).src(), self.ist()) {
                    Result::Ok(p2) => {
                        assert(crate::data::inlines_view(row@) + p2.0
                            =~= crate::data::inlines_view(row0) + (seq![
                            crate::data::spans_view(cellg),
                        ] + p2.0));
                    },
                    Result::Err(e) => {},
                }
            }
        }
        let ghost atend = *self;
        self.is_eol();
        proof {
            assert(sp_cells(old(self).src(), atend.ist()) == Result::<
                (Seq<Seq<crate::data::SpanV>>, InSt),
                ErrV,
            >::Ok(
                (
                    Seq::empty(),
                    InSt {
                        pos: atend.ist().pos + eol_adv(old(self).src(), atend.at()),
                        note_id: atend.ist().note_id,
                        notes: atend.ist().notes,
                    },
                ),
            ));
            assert(crate::data::inlines_view(row@) + Seq::<Seq<crate::data::SpanV>>::empty()
                =~= crate::data::inlines_view(row@));
            assert(self.ist() == (InSt {
                pos: atend.ist().pos + eol_adv(old(self).src(), atend.at()),
                note_id: atend.ist().note_id,
                notes: atend.ist().notes,
            }));
            assert(crate::data::row_view(row) =~= crate::data::inlines_view(row@));
        }
        Result::Ok(Option::Some(row))
    }

    /// Parses rows until a separator row or a non-row line ends the group.
    fn parse_table_rows(&mut self) -> (r: Result<Vec<Vec<crate::data::Inline>>, SyntaxError>)
        requires
            old(self).wf(),
        ensures
            final(self).wf(),
            Parser::frame(*old(self), *final(self)),
            r is Ok ==> note_ids(final(self).notes@) =~= note_ids(old(self).notes@) + id_range(
                old(self).note_id as int,
                final(self).note_id as int,
            ),
            (r is Ok && starts_with_at(old(self).src(), old(self).at(), "|"@)) ==> final(self).at()
                > old(self).at(),
            sp_table_rows(old(self).src(), old(self).ist()) == rows_res(r, final(self).ist()),
    {
        let mut rows: Vec<Vec<crate::data::Inline>> = Vec::new();
        let n = self.chs.len();
        proof {
            match sp_table_rows(old(self).src(), old(self).ist()) {
                Result::Ok(p) => {
                    assert(crate::data::rows_view(rows@) + p.0 =~= p.0);
                },
                Result::Err(e) => {},
            }
        }
        loop
            invariant
                self.wf(),
                n == self.src().len(),
                Parser::frame(*old(self), *self),
                note_ids(self.notes@) =~= note_ids(old(self).notes@) + id_range(
                    old(self).note_id as int,
                    self.note_id as int,
                ),
                starts_with_at(old(self).src(), old(self).at(), "|"@) && self.at() == old(self).at()
                    ==> rows@.len() == 0,
                sp_table_rows(old(self).src(), old(self).ist()) == (match sp_table_rows(
                    old(self).src(),
                    self.ist(),
                ) {
                    Result::Ok(p) => Result::<(Seq<Seq<Seq<crate::data::SpanV>>>, InSt), ErrV>::Ok(
                        (crate::data::rows_view(rows@) + p.0, p.1),
                    ),
                    Result::Err(e) => Result::Err(e),
                }),
            decreases n - self.pos,
        {
            let ghost mid = *self;
            let row = match self.parse_table_row() {
                Result::Ok(r0) => r0,
                Result::Err(e) => {
                    return Result::Err(e);
                },
            };
            proof {
                lemma_id_range_concat(
                    old(self).note_id as int,
                    mid.note_id as int,
                    self.note_id as int,
                );
                assert(note_ids(self.notes@) =~= note_ids(old(self).notes@) + id_range(
                    old(self).note_id as int,
                    self.note_id as int,
                ));
            }
            match row {
                Option::None => {
                    proof {
                        if starts_with_at(old(self).src(), old(self).at(), "|"@) && self.at()
                            == old(self).at() {
                            assert(mid.at() == old(self).at());
                            assert(false);
                        }
                        assert(crate::data::rows_view(rows@)
                            + Seq::<Seq<Seq<crate::data::SpanV>>>::empty()
                            =~= crate::data::rows_view(rows@));
                    }
                    return Result::Ok(rows);
                },
                Option::Some(r0) => {
                    let ghost r0g = crate::data::row_view(r0);
                    let ghost rows0 = rows@;
                    rows.push(r0);
                    proof {
                        crate::data::lemma_rows_view_push(rows0, rows@.last());
                        assert(rows@ == rows0.push(rows@.last()));
                        assert(mid.at() < self.at() <= self.src().len());
                        match sp_table_rows(old(self).src(), self.ist()) {
                            Result::Ok(p2) => {
                                assert(crate::data::rows_view(rows@) + p2.0
                                    =~= crate::data::rows_view(rows0) + (seq![r0g] + p2.0));
                            },
                            Result::Err(e) => {},
                        }
                    }
                },
            }
        }
    }

    /// Parses one table: header rows, one separator row, then body rows.
    fn parse_table(&mut self) -> (r: Result<crate::data::Block, SyntaxError>)
        requires
            old(self).wf(),
        ensures
            final(self).wf(),
            Parser::frame(*old(self), *final(self)),
            r is Ok ==> note_ids(final(self).notes@) =~= note_ids(old(self).notes@) + id_range(
                old(self).note_id as int,
                final(self).note_id as int,
            ),
            (r is Ok && starts_with_at(old(self).src(), old(self).at(), "|"@)) ==> final(self).at()
                > old(self).at(),
            r matches Ok(b) ==> (b matches crate::data::Block::Table { head, body }),
            sp_table(old(self).src(), old(self).ist()) == iblock_res(r, final(self).ist()),
    {
        let head = match self.parse_table_rows() {
            Result::Ok(h) => h,
            Result::Err(e) => {
                return Result::Err(e);
            },
        };
        let ghost mid = *self;
        let body = match self.parse_table_rows() {
            Result::Ok(b) => b,
            Result::Err(e) => {
                return Result::Err(e);
            },
        };
        proof {
            lemma_id_range_concat(
                old(self).note_id as int,
                mid.note_id as int,
                self.note_id as int,
            );
            assert(note_ids(self.notes@) =~= note_ids(old(self).notes@) + id_range(
                old(self).note_id as int,
                self.note_id as int,
            ));
        }
        Result::Ok(crate::data::Block::Table { head, body })
    }
}

} // verus!

verus! {

impl Parser {
    /// Parses one heading at the given level: one inline line, whose
    /// flattened text becomes the anchor source. A level-one heading sets
    /// the document title. A deeper heading registers its anchor text to
    /// obtain a unique id and receives a table-of-contents entry, nested by
    /// descending through the last item's sub-list once per level below
    /// two; a heading more than one level below its most recent ancestor is
    /// rejected, since the descent has no target.
    fn parse_header(&mut self, level: u32) -> (r: Result<crate::data::Block, SyntaxError>)
        requires
            old(self).wf(),
            1 <= level <= 6,
        ensures
            final(self).wf(),
            final(self).chs@ == old(self).chs@,
            old(self).pos <= final(self).pos <= final(self).chs@.len(),
            final(self).content == old(self).content,
            old(self).note_id <= final(self).note_id,
            r is Ok ==> note_ids(final(self).notes@) =~= note_ids(old(self).notes@) + id_range(
                old(self).note_id as int,
                final(self).note_id as int,
            ),
            r matches Ok(b) ==> (b matches crate::data::Block::Header { header, level: lv, id }
                && lv == level && {
                let anchor = anchor_text(crate::data::inline_view(header));
                &&& (level == 1 ==> final(self).title@ == anchor && id@ == anchor && final(self).headers == old(self).headers && final(self).toc == old(self).toc)
                &&& (level >= 2 ==> {
                    let cnt = old(self).headers.count(anchor);
                    &&& id@ == suffixed_id(anchor, cnt)
                    &&& final(self).headers.count(anchor) == (if cnt < usize::MAX {
                        cnt + 1
                    } else {
                        cnt
                    })
                    &&& (forall|k: Seq<char>|
                        k != anchor ==> final(self).headers.count(k) == old(self).headers.count(
                            k,
                        ))
                    &&& final(self).title == old(self).title
                    &&& Option::Some(crate::data::list_view(final(self).toc)) == toc_insert_spec(
                        crate::data::list_view(old(self).toc),
                        level - 2,
                        crate::data::ItemV {
                            item: seq![
                                crate::data::SpanV::Link {
                                    text: toc_flatten_spec(crate::data::inline_view(header)),
                                    url: seq!['#'] + id@,
                                },
                            ],
                            list: (crate::data::ListV { ordered: true, items: Seq::empty() }),
                        },
                    )
                })
            }),
            sp_header(old(self).src(), old(self).stv(), level as int) == block_res(
                r,
                final(self).stv(),
            ),
    {
        proof {
            assert(ist_of(old(self).stv()) == old(self).ist());
        }
        let header = match self.parse_inline() {
            Result::Ok(h) => h,
            Result::Err(e) => {
                return Result::Err(e);
            },
        };
        let mut anchor = String::new();
        push_anchor(&mut anchor, &header.0, 0);
        proof {
            assert(anchor@ =~= anchor_text(crate::data::spans_view(header.0@)));
        }
        if level == 1 {
            self.title = crate::text::clone_string(&anchor);
            proof {
                assert(final(self).stv().counts =~= old(self).stv().counts);
                match sp_inline(old(self).src(), old(self).ist()) {
                    Result::Ok(p) => {
                        assert(final(self).stv() =~= (StV {
                            pos: p.1.pos,
                            note_id: p.1.note_id,
                            notes: p.1.notes,
                            counts: old(self).stv().counts,
                            title: anchor_text(p.0),
                            toc: old(self).stv().toc,
                            content: old(self).stv().content,
                        }));
                    },
                    Result::Err(e) => {},
                }
            }
            return Result::Ok(crate::data::Block::Header { header, level, id: anchor });
        }
        let count = self.headers.insert(crate::text::clone_string(&anchor));
        let ghost anchor_seq = anchor@;
        let id = if count > 0 {
            let mut t = crate::text::clone_string(&anchor);
            crate::text::push_char(&mut t, '-');
            crate::text::push_dec(&mut t, count as u64);
            proof {
                assert(t@ =~= suffixed_id(anchor_seq, count as nat));
            }
            t
        } else {
            anchor
        };
        let toc_text = toc_flatten(&header.0);
        let mut url = String::new();
        crate::text::push_char(&mut url, '#');
        url.append(id.as_str());
        proof {
            assert(url@ =~= seq!['#'] + id@);
        }
        let link = crate::data::Span::Link { text: crate::data::Inline(toc_text), url };
        let ghost linkg = link;
        let entry = crate::data::ListItem {
            item: crate::data::Inline(vec![link]),
            list: crate::data::List { ordered: true, items: Vec::new() },
        };
        let ghost entryg = entry;
        proof {
            assert(entryg.item.0@ =~= seq![linkg]);
            assert(crate::data::spans_view(seq![linkg]) =~= seq![crate::data::span_view(linkg)]) by {
                crate::data::lemma_spans_view(seq![linkg]);
            }
            assert(crate::data::items_view(Seq::<crate::data::ListItem>::empty())
                =~= Seq::<crate::data::ItemV>::empty());
            assert(crate::data::item_view(entryg) == (crate::data::ItemV {
                item: seq![
                    crate::data::SpanV::Link {
                        text: toc_flatten_spec(crate::data::inline_view(header)),
                        url: seq!['#'] + id@,
                    },
                ],
                list: (crate::data::ListV { ordered: true, items: Seq::empty() }),
            }));
        }
        let ok = toc_insert(&mut self.toc, level - 2, entry);
        proof {
            let st0 = old(self).stv();
            assert(st0.counts[anchor_seq] == old(self).headers.count(anchor_seq));
            assert(final(self).stv().counts =~= st0.counts.insert(
                anchor_seq,
                if st0.counts[anchor_seq] < usize::MAX as nat {
                    st0.counts[anchor_seq] + 1
                } else {
                    st0.counts[anchor_seq]
                },
            ));
        }
        if !ok {
            return Result::Err(SyntaxError::HeadingSkip);
        }
        Result::Ok(crate::data::Block::Header { header, level, id })
    }

    /// Parses one block, dispatching on the next characters: a heading, a
    /// blockquote, a list, an embed, a table, a math or code block, an
    /// explicit reference-group flush, else one paragraph.
    fn parse_block(&mut self) -> (r: Result<crate::data::Block, SyntaxError>)
        requires
            old(self).wf(),
        ensures
            final(self).wf(),
            final(self).chs@ == old(self).chs@,
            old(self).pos <= final(self).pos <= final(self).chs@.len(),
            final(self).content == old(self).content,
            old(self).note_id <= final(self).note_id,
            r matches Ok(b) ==> (ref_ids_block(crate::data::block_view(b)) + note_ids(
                final(self).notes@,
            ) =~= note_ids(old(self).notes@) + id_range(
                old(self).note_id as int,
                final(self).note_id as int,
            )),
            r is Ok ==> final(self).at() > old(self).at() || old(self).at() == old(self).src().len(),
            sp_block(old(self).src(), old(self).stv()) == block_res(r, final(self).stv()),
            (old(self).plain_tail() && old(self).plain_head() && old(self).at() < old(self).src().len()) ==> (r matches Ok(b) && crate::data::block_view(b)
                == (crate::data::BlockV::Paragraph {
                text: seq![crate::data::SpanV::Text { text: old(self).remaining() }],
            }) && final(self).at() == old(self).src().len() && final(self).notes == old(self).notes
                && final(self).note_id == old(self).note_id && final(self).headers == old(self).headers && final(self).title == old(self).title && final(self).toc == old(self).toc),
    {
        proof {
            reveal(sp_block);
            reveal_strlit("# ");
            reveal_strlit("## ");
            reveal_strlit("### ");
            reveal_strlit("#### ");
            reveal_strlit("##### ");
            reveal_strlit("###### ");
            reveal_strlit(">>");
            reveal_strlit("- ");
            reveal_strlit("+ ");
            reveal_strlit("@[");
            reveal_strlit("|");
            reveal_strlit("$$");
            reveal_strlit("```");
            reveal_strlit("[^]");
            if old(self).plain_tail() && old(self).plain_head() && old(self).at() < old(self).src().len() {
                let s = old(self).src();
                let i = old(self).at();
                lemma_prefix_head(s, i, "# "@);
                lemma_prefix_head(s, i, "## "@);
                lemma_prefix_head(s, i, "### "@);
                lemma_prefix_head(s, i, "#### "@);
                lemma_prefix_head(s, i, "##### "@);
                lemma_prefix_head(s, i, "###### "@);
                lemma_prefix_head(s, i, ">>"@);
                lemma_prefix_head(s, i, "- "@);
                lemma_prefix_head(s, i, "+ "@);
                lemma_prefix_second(s, i, "@["@);
                lemma_prefix_head(s, i, "|"@);
                lemma_prefix_head(s, i, "$$"@);
                lemma_prefix_head(s, i, "```"@);
                lemma_prefix_head(s, i, "[^]"@);
            }
        }
        if self.starts_with_next("# ") {
            proof {
                assert(self.stv() =~= (StV { pos: old(self).stv().pos + "# "@.len(), ..old(self).stv() }));
            }
            return self.parse_header(1);
        }
        if self.starts_with_next("## ") {
            proof {
                assert(self.stv() =~= (StV { pos: old(self).stv().pos + "## "@.len(), ..old(self).stv() }));
            }
            return self.parse_header(2);
        }
        if self.starts_with_next("### ") {
            proof {
                assert(self.stv() =~= (StV { pos: old(self).stv().pos + "### "@.len(), ..old(self).stv() }));
            }
            return self.parse_header(3);
        }
        if self.starts_with_next("#### ") {
            proof {
                assert(self.stv() =~= (StV { pos: old(self).stv().pos + "#### "@.len(), ..old(self).stv() }));
            }
            return self.parse_header(4);
        }
        if self.starts_with_next("##### ") {
            proof {
                assert(self.stv() =~= (StV { pos: old(self).stv().pos + "##### "@.len(), ..old(self).stv() }));
            }
            return self.parse_header(5);
        }
        if self.starts_with_next("###### ") {
            proof {
                assert(self.stv() =~= (StV { pos: old(self).stv().pos + "###### "@.len(), ..old(self).stv() }));
            }
            return self.parse_header(6);
        }
        if self.starts_with_next(">>") {
            let ghost mid = *self;
            let r0 = self.parse_blockquote();
            proof {
                assert(mid.ist() == (InSt {
                    pos: old(self).stv().pos + 2,
                    note_id: old(self).stv().note_id,
                    notes: old(self).stv().notes,
                }));
                assert(final(self).stv() =~= with_ist(old(self).stv(), final(self).ist()));
            }
            return r0;
        }
        if self.match_at_pos(self.pos, "- ") || self.match_at_pos(self.pos, "+ ") {
            proof {
                assert(ist_of(old(self).stv()) == old(self).ist());
            }
            let l = match self.parse_list(0) {
                Result::Ok(l) => l,
                Result::Err(e) => {
                    return Result::Err(e);
                },
            };
            proof {
                assert(final(self).stv() =~= with_ist(old(self).stv(), final(self).ist()));
            }
            return Result::Ok(crate::data::Block::ListBlock(l));
        }
        if self.starts_with_next("@[") {
            let ghost mid = *self;
            let r0 = self.parse_embed();
            proof {
                assert(mid.ist() == (InSt {
                    pos: old(self).stv().pos + 2,
                    note_id: old(self).stv().note_id,
                    notes: old(self).stv().notes,
                }));
                assert(final(self).stv() =~= with_ist(old(self).stv(), final(self).ist()));
            }
            return r0;
        }
        if self.match_at_pos(self.pos, "|") {
            proof {
                assert(ist_of(old(self).stv()) == old(self).ist());
            }
            let r0 = self.parse_table();
            proof {
                assert(final(self).stv() =~= with_ist(old(self).stv(), final(self).ist()));
            }
            return r0;
        }
        if self.starts_with_next("$$") {
            let ghost mid = *self;
            let r0 = self.parse_math_block();
            proof {
                assert(mid.ist() == (InSt {
                    pos: old(self).stv().pos + 2,
                    note_id: old(self).stv().note_id,
                    notes: old(self).stv().notes,
                }));
                assert(final(self).stv() =~= with_ist(old(self).stv(), final(self).ist()));
            }
            return r0;
        }
        if self.starts_with_next("```") {
            let ghost mid = *self;
            let r0 = self.parse_code_block();
            proof {
                assert(mid.ist() == (InSt {
                    pos: old(self).stv().pos + 3,
                    note_id: old(self).stv().note_id,
                    notes: old(self).stv().notes,
                }));
                assert(final(self).stv() =~= with_ist(old(self).stv(), final(self).ist()));
            }
            return r0;
        }
        if self.starts_with_next("[^]") {
            let b = self.catch_refs();
            proof {
                assert(ref_ids_block(crate::data::block_view(b)) + note_ids(final(self).notes@)
                    =~= note_ids(old(self).notes@) + id_range(
                    old(self).note_id as int,
                    final(self).note_id as int,
                ));
                assert(final(self).stv() =~= (StV {
                    pos: old(self).stv().pos + 3,
                    notes: Seq::empty(),
                    ..old(self).stv()
                }));
            }
            return Result::Ok(b);
        }
        proof {
            assert(ist_of(old(self).stv()) == old(self).ist());
        }
        let r0 = self.parse_paragraph();
        proof {
            assert(final(self).stv() =~= with_ist(old(self).stv(), final(self).ist()));
        }
        r0
    }

    /// Parses the whole document: blocks until the input is exhausted, with
    /// an empty paragraph discarded and a level-one heading contributing
    /// only the title, then one final unconditional reference-group flush
    /// so that notes collected after the last explicit flush marker are not
    /// dropped.
    #[verifier::rlimit(100)]
    #[verifier::spinoff_prover]
    pub fn parse_document(&mut self) -> (r: Result<(), SyntaxError>)
        requires
            old(self).wf(),
        ensures
            final(self).wf(),
            r is Ok && old(self).fresh() ==> consecutive_from_one(
                ref_ids(final(self).content_view()),
            ) && final(self).notes_empty() && doc_shape(final(self).content_view()),
            r is Ok ==> sp_document(old(self).src(), old(self).stv()) == Result::<StV, ErrV>::Ok(
                final(self).stv(),
            ),
            r matches Err(e) ==> sp_document(old(self).src(), old(self).stv()) == Result::<
                StV,
                ErrV,
            >::Err(err_view(e)),
            old(self).fresh() && plain_doc(old(self).src()) ==> r is Ok && final(self).title_view()
                == old(self).title_view() && final(self).toc_view() == old(self).toc_view()
                && final(self).content_view()
                == (if old(self).src().len() > 0 {
                seq![
                    crate::data::BlockV::Paragraph {
                        text: seq![crate::data::SpanV::Text { text: old(self).src() }],
                    },
                    crate::data::BlockV::Ref(Seq::empty()),
                ]
            } else {
                seq![crate::data::BlockV::Ref(Seq::empty())]
            }),
    {
        let n = self.chs.len();
        proof {
            assert(doc_compose(old(self).src(), old(self).stv(), self.stv())) by {
                reveal(doc_compose);
            }
        }
        while self.pos < n
            invariant
                self.wf(),
                n == self.src().len(),
                self.chs@ == old(self).chs@,
                old(self).pos <= self.pos,
                old(self).note_id <= self.note_id,
                old(self).fresh() ==> (ref_ids(self.content_view()) + note_ids(self.notes@)
                    =~= id_range(0, self.note_id as int)),
                old(self).fresh() ==> (forall|k: int|
                    0 <= k < self.content_view().len() ==> body_block(
                        #[trigger] self.content_view()[k],
                    )),
                doc_compose(old(self).src(), old(self).stv(), self.stv()),
                old(self).fresh() && plain_doc(old(self).src()) ==> (self.title == old(self).title
                    && self.toc == old(self).toc && self.notes@.len() == 0 && self.note_id == 0 && (
                (self.pos == 0 && self.content@.len() == 0) || (self.pos == n && n > 0
                    && self.content_view() == seq![
                    crate::data::BlockV::Paragraph {
                        text: seq![crate::data::SpanV::Text { text: old(self).src() }],
                    },
                ]))),
            decreases n - self.pos,
        {
            let ghost mid = *self;
            let block = match self.parse_block() {
                Result::Ok(b) => b,
                Result::Err(e) => {
                    proof {
                        assert(sp_document(old(self).src(), old(self).stv()) == Result::<
                            StV,
                            ErrV,
                        >::Err(err_view(e))) by {
                            reveal(doc_compose);
                            reveal(sp_document);
                            assert(doc_compose(old(self).src(), old(self).stv(), mid.stv()));
                            assert(sp_document(old(self).src(), old(self).stv()) == sp_document(
                                old(self).src(),
                                mid.stv(),
                            ));
                            assert(0 <= mid.stv().pos < old(self).src().len());
                            assert(sp_block(old(self).src(), mid.stv()) == Result::<
                                (crate::data::BlockV, StV),
                                ErrV,
                            >::Err(err_view(e)));
                            assert(sp_document(old(self).src(), mid.stv()) == Result::<
                                StV,
                                ErrV,
                            >::Err(err_view(e)));
                        }
                    }
                    return Result::Err(e);
                },
            };
            let ghost blockg = block;
            let ghost st1 = self.stv();
            let skip = match &block {
                crate::data::Block::Paragraph { text } => text.0.len() == 0,
                crate::data::Block::Header { level, .. } => *level == 1,
                _ => false,
            };
            proof {
                if old(self).fresh() && plain_doc(old(self).src()) {
                    if mid.pos == 0 {
                        assert(mid.plain_tail()) by {
                            assert(forall|k: int|
                                mid.at() <= k < mid.src().len() ==> plain_char(
                                    #[trigger] mid.src()[k],
                                ));
                        }
                        assert(mid.plain_head());
                        assert(mid.remaining() =~= old(self).src());
                    }
                }
            }
            if !skip {
                let ghost content0 = self.content@;
                self.content.push(block);
                proof {
                    crate::data::lemma_blocks_view_push(content0, blockg);
                    assert(body_block(crate::data::block_view(blockg))) by {
                        match blockg {
                            crate::data::Block::Paragraph { text } => {
                                crate::data::lemma_spans_view(text.0@);
                            },
                            _ => {},
                        }
                    }
                    if old(self).fresh() {
                        lemma_ref_ids_push(crate::data::blocks_view(content0), crate::data::block_view(blockg));
                        lemma_id_range_concat(0, mid.note_id as int, self.note_id as int);
                        assert(ref_ids(self.content_view()) =~= ref_ids(
                            crate::data::blocks_view(content0),
                        ) + ref_ids_block(crate::data::block_view(blockg)));
                        assert(ref_ids_block(crate::data::block_view(blockg)) + note_ids(
                            self.notes@,
                        ) =~= note_ids(mid.notes@) + id_range(
                            mid.note_id as int,
                            self.note_id as int,
                        ));
                        assert(content0 == mid.content@);
                        assert(crate::data::blocks_view(content0) == mid.content_view());
                        assert(ref_ids(mid.content_view()) + note_ids(mid.notes@) =~= id_range(
                            0,
                            mid.note_id as int,
                        ));
                        assert(ref_ids(crate::data::blocks_view(content0)) + note_ids(mid.notes@)
                            =~= id_range(0, mid.note_id as int));
                        let a = ref_ids(crate::data::blocks_view(content0));
                        let b = ref_ids_block(crate::data::block_view(blockg));
                        let c = note_ids(self.notes@);
                        let r2 = id_range(mid.note_id as int, self.note_id as int);
                        assert(a + b + c =~= a + (b + c));
                        assert(b + c == note_ids(mid.notes@) + r2);
                        assert(a + (note_ids(mid.notes@) + r2) =~= (a + note_ids(mid.notes@))
                            + r2);
                        assert((a + note_ids(mid.notes@)) + r2 == id_range(0, mid.note_id as int)
                            + r2);
                        assert(ref_ids(self.content_view()) + note_ids(self.notes@) =~= id_range(
                            0,
                            self.note_id as int,
                        ));
                    }
                }
            } else {
                proof {
                    if old(self).fresh() {
                        assert(ref_ids_block(crate::data::block_view(blockg))
                            =~= Seq::<int>::empty());
                        lemma_id_range_concat(0, mid.note_id as int, self.note_id as int);
                        assert(ref_ids(self.content_view()) + note_ids(self.notes@) =~= id_range(
                            0,
                            self.note_id as int,
                        ));
                    }
                }
            }
            proof {
                assert(doc_compose(old(self).src(), old(self).stv(), self.stv())) by {
                    reveal(doc_compose);
                    reveal(sp_document);
                    assert(skip == skip_block(crate::data::block_view(blockg))) by {
                        match blockg {
                            crate::data::Block::Paragraph { text } => {
                                crate::data::lemma_spans_view(text.0@);
                            },
                            _ => {},
                        }
                    }
                    assert(mid.stv().pos < st1.pos <= old(self).src().len());
                    if skip {
                        assert(self.stv() == st1);
                    } else {
                        crate::data::lemma_blocks_view_push(mid.content@, blockg);
                        assert(self.stv() =~= (StV {
                            content: st1.content.push(crate::data::block_view(blockg)),
                            ..st1
                        }));
                    }
                    assert(sp_document(old(self).src(), mid.stv()) == sp_document(
                        old(self).src(),
                        self.stv(),
                    ));
                }
            }
        }
        let ghost pre_flush = *self;
        let refs = self.catch_refs();
        let ghost refsg = refs;
        let ghost content0 = self.content@;
        self.content.push(refs);
        proof {
            crate::data::lemma_blocks_view_push(content0, refsg);
            lemma_ref_ids_push(crate::data::blocks_view(content0), crate::data::block_view(refsg));
            assert(sp_document(old(self).src(), old(self).stv()) == Result::<StV, ErrV>::Ok(
                self.stv(),
            )) by {
                reveal(doc_compose);
                reveal(sp_document);
                assert(crate::data::notes_view(pre_flush.notes@) == pre_flush.stv().notes);
                assert(sp_document(old(self).src(), pre_flush.stv()) == Result::<StV, ErrV>::Ok(
                    StV {
                        notes: Seq::empty(),
                        content: pre_flush.stv().content.push(
                            crate::data::BlockV::Ref(pre_flush.stv().notes),
                        ),
                        ..pre_flush.stv()
                    },
                ));
                assert(crate::data::notes_view(self.notes@) =~= Seq::<
                    (Seq<crate::data::SpanV>, int),
                >::empty());
                assert(self.stv() =~= (StV {
                    notes: Seq::empty(),
                    content: pre_flush.stv().content.push(
                        crate::data::BlockV::Ref(pre_flush.stv().notes),
                    ),
                    ..pre_flush.stv()
                }));
            }
            if old(self).fresh() {
                assert(ref_ids(self.content_view()) =~= id_range(0, self.note_id as int));
                assert(consecutive_from_one(ref_ids(self.content_view())));
                assert(self.content_view().last() == crate::data::block_view(refsg));
                assert(doc_shape(self.content_view()));
                if plain_doc(old(self).src()) {
                    assert(crate::data::notes_view(pre_flush.notes@)
                        =~= Seq::<(Seq<crate::data::SpanV>, int)>::empty());
                    assert(self.content_view() =~= crate::data::blocks_view(content0).push(
                        crate::data::BlockV::Ref(Seq::empty()),
                    ));
                }
            }
        }
        Result::Ok(())
    }

    /// A parser over the given source text, with empty registries.
    fn new(doc: &str) -> (r: Parser)
        ensures
            r.wf(),
            r.fresh(),
            r.src() == doc@,
            r.title@ == Seq::<char>::empty(),
            crate::data::list_view(r.toc) == (crate::data::ListV {
                ordered: true,
                items: Seq::empty(),
            }),
            r.stv() == init_st(),
    {
        let toc = crate::data::List { ordered: true, items: Vec::new() };
        proof {
            assert(crate::data::items_view(Seq::<crate::data::ListItem>::empty())
                =~= Seq::<crate::data::ItemV>::empty());
        }
        let p = Parser {
            chs: crate::text::chars_of(doc),
            pos: 0,
            headers: MultiSet::new(),
            notes: Vec::new(),
            note_id: 0,
            title: String::new(),
            toc,
            content: Vec::new(),
        };
        proof {
            assert(crate::data::notes_view(Seq::<(crate::data::Inline, usize)>::empty())
                =~= Seq::<(Seq<crate::data::SpanV>, int)>::empty());
            assert(crate::data::blocks_view(Seq::<crate::data::Block>::empty())
                =~= Seq::<crate::data::BlockV>::empty());
            assert(p.stv().counts =~= init_st().counts);
            assert(p.stv() =~= init_st());
        }
        p
    }
}

/// Parses a whole source document into its title, its table of contents,
/// and its block sequence. Fails exactly when a delimited construct is
/// unterminated or a heading level skips past its ancestor. Citation ids in
/// the emitted reference groups are `1, 2, 3, …` in encounter order, and a
/// document of plain text is one paragraph holding that text verbatim.
pub fn parse(doc: &str) -> (r: Result<(String, crate::data::List, Vec<crate::data::Block>), SyntaxError>)
    ensures
        r matches Ok(d) ==> consecutive_from_one(ref_ids(crate::data::blocks_view(d.2@)))
            && doc_shape(crate::data::blocks_view(d.2@)),
        r matches Ok(d) ==> (sp_document(doc@, init_st()) matches Ok(stf) && stf.title == d.0@
            && stf.toc == crate::data::list_view(d.1) && stf.content == crate::data::blocks_view(
            d.2@,
        )),
        r matches Err(e) ==> sp_document(doc@, init_st()) == Result::<StV, ErrV>::Err(
            err_view(e),
        ),
        plain_doc(doc@) ==> r is Ok,
        plain_doc(doc@) ==> (r matches Ok(d) && d.0@ == Seq::<char>::empty()
            && crate::data::list_view(d.1) == (crate::data::ListV {
            ordered: true,
            items: Seq::empty(),
        }) && crate::data::blocks_view(d.2@) == (if doc@.len() > 0 {
            seq![
                crate::data::BlockV::Paragraph {
                    text: seq![crate::data::SpanV::Text { text: doc@ }],
                },
                crate::data::BlockV::Ref(Seq::empty()),
            ]
        } else {
            seq![crate::data::BlockV::Ref(Seq::empty())]
        })),
{
    let mut p = Parser::new(doc);
    let r0 = p.parse_document();
    proof {
        if r0 is Ok {
            assert(sp_document(doc@, init_st()) == Result::<StV, ErrV>::Ok(p.stv()));
            assert(p.stv().title == p.title@);
            assert(p.stv().toc == crate::data::list_view(p.toc));
            assert(p.stv().content == crate::data::blocks_view(p.content@));
        }
    }
    match r0 {
        Result::Ok(()) => Result::Ok((p.title, p.toc, p.content)),
        Result::Err(e) => Result::Err(e),
    }
}

} // verus!

verus! {

// ------------------------------------------------------------------
// The parser, as mathematics
// ------------------------------------------------------------------
// A total, specification-level rendition of the grammar. Each executable
// parse routine below carries an ensures clause equating its result and
// final state with the corresponding function here, so the model a parse
// returns is tied to the input, and success is owed exactly where these
// functions succeed. Where termination of a repetition rests on a theorem
// (every step consumes input), the specification guards the step with an
// explicit progress test and otherwise answers `stuck()`; the refinement
// proofs show those guards never fire.
/// A syntax error, at the specification level.
#[verifier::ext_equal]
pub enum ErrV {
    Expect(Seq<Seq<char>>),
    HeadingSkip,
}

/// The view of a syntax error.
pub open spec fn err_view(e: SyntaxError) -> ErrV {
    match e {
        SyntaxError::Expect(ts) => ErrV::Expect(string_views(ts@)),
        SyntaxError::HeadingSkip => ErrV::HeadingSkip,
    }
}

/// The answer of an unreachable specification guard.
pub open spec fn stuck() -> ErrV {
    ErrV::Expect(Seq::empty())
}

/// The inline-level parser state: the cursor and the footnote collector.
#[verifier::ext_equal]
pub struct InSt {
    pub pos: int,
    pub note_id: int,
    pub notes: Seq<(Seq<crate::data::SpanV>, int)>,
}

/// The whole parser state, at the specification level.
#[verifier::ext_equal]
pub struct StV {
    pub pos: int,
    pub note_id: int,
    pub notes: Seq<(Seq<crate::data::SpanV>, int)>,
    pub counts: Map<Seq<char>, nat>,
    pub title: Seq<char>,
    pub toc: crate::data::ListV,
    pub content: Seq<crate::data::BlockV>,
}

/// The inline part of a whole state.
pub open spec fn ist_of(st: StV) -> InSt {
    InSt { pos: st.pos, note_id: st.note_id, notes: st.notes }
}

/// A whole state with its inline part replaced.
pub open spec fn with_ist(st: StV, i: InSt) -> StV {
    StV {
        pos: i.pos,
        note_id: i.note_id,
        notes: i.notes,
        counts: st.counts,
        title: st.title,
        toc: st.toc,
        content: st.content,
    }
}

/// The terminators of literal text: every character that can open a span
/// construct, and the line breaks.
pub open spec fn text_terms() -> Seq<Seq<char>> {
    seq!["|"@, "**"@, "__"@, "["@, "]"@, "$"@, "`"@, "\n"@, "\r\n"@]
}

/// One primary span: inline math, inline code, or literal text up to the
/// next special character or line end; a special character no construct
/// consumed is one literal character.
pub open spec fn sp_primary(s: Seq<char>, st: InSt) -> Result<(crate::data::SpanV, InSt), ErrV> {
    if st.pos < 0 || st.pos > s.len() {
        Result::Err(stuck())
    } else if starts_with_at(s, st.pos, "$"@) {
        if scan_found(s, st.pos + 1, seq!["$"@]) {
            let e = scan_end(s, st.pos + 1, seq!["$"@]);
            Result::Ok(
                (
                    crate::data::SpanV::Math { math: s.subrange(st.pos + 1, e) },
                    InSt { pos: e + 1, note_id: st.note_id, notes: st.notes },
                ),
            )
        } else {
            Result::Err(ErrV::Expect(seq!["$"@]))
        }
    } else if starts_with_at(s, st.pos, "`"@) {
        if scan_found(s, st.pos + 1, seq!["`"@]) {
            let e = scan_end(s, st.pos + 1, seq!["`"@]);
            Result::Ok(
                (
                    crate::data::SpanV::Code { code: s.subrange(st.pos + 1, e) },
                    InSt { pos: e + 1, note_id: st.note_id, notes: st.notes },
                ),
            )
        } else {
            Result::Err(ErrV::Expect(seq!["`"@]))
        }
    } else {
        let e = scan_end(s, st.pos, text_terms());
        if e == st.pos && st.pos < s.len() {
            Result::Ok(
                (
                    crate::data::SpanV::Text { text: s.subrange(st.pos, st.pos + 1) },
                    InSt { pos: st.pos + 1, note_id: st.note_id, notes: st.notes },
                ),
            )
        } else {
            Result::Ok(
                (
                    crate::data::SpanV::Text { text: s.subrange(st.pos, e) },
                    InSt { pos: e, note_id: st.note_id, notes: st.notes },
                ),
            )
        }
    }
}

/// The spans of an enclosed run, until the first terminator of `terms` is
/// consumed, one `sp_emph` step at a time.
pub open spec fn sp_until_emph(s: Seq<char>, st: InSt, terms: Seq<Seq<char>>) -> Result<
    (Seq<crate::data::SpanV>, InSt),
    ErrV,
>
    decreases s.len() - st.pos + 1, 2int,
{
    if st.pos < 0 || st.pos > s.len() {
        Result::Err(stuck())
    } else if st.pos == s.len() {
        Result::Err(ErrV::Expect(terms))
    } else if matches_any_at(s, st.pos, terms) {
        let ft = first_term(terms, s, st.pos);
        Result::Ok(
            (
                Seq::empty(),
                InSt { pos: st.pos + ft.len(), note_id: st.note_id, notes: st.notes },
            ),
        )
    } else {
        match sp_emph(s, st) {
            Result::Err(e) => Result::Err(e),
            Result::Ok((sp, st1)) => if st.pos < st1.pos <= s.len() {
                match sp_until_emph(s, st1, terms) {
                    Result::Err(e) => Result::Err(e),
                    Result::Ok((rest, st2)) => Result::Ok((seq![sp] + rest, st2)),
                }
            } else {
                Result::Err(stuck())
            },
        }
    }
}

/// One emphasis span: bold, italic, or a primary span.
pub open spec fn sp_emph(s: Seq<char>, st: InSt) -> Result<(crate::data::SpanV, InSt), ErrV>
    decreases s.len() - st.pos + 1, 1int,
{
    if st.pos < 0 || st.pos > s.len() {
        Result::Err(stuck())
    } else if st.pos + 2 <= s.len() && starts_with_at(s, st.pos, "**"@) {
        match sp_until_emph(
            s,
            InSt { pos: st.pos + 2, note_id: st.note_id, notes: st.notes },
            seq!["**"@],
        ) {
            Result::Err(e) => Result::Err(e),
            Result::Ok((spans, st1)) => Result::Ok((crate::data::SpanV::Bold { text: spans }, st1)),
        }
    } else if st.pos + 2 <= s.len() && starts_with_at(s, st.pos, "__"@) {
        match sp_until_emph(
            s,
            InSt { pos: st.pos + 2, note_id: st.note_id, notes: st.notes },
            seq!["__"@],
        ) {
            Result::Err(e) => Result::Err(e),
            Result::Ok((spans, st1)) => Result::Ok((crate::data::SpanV::Ital { text: spans }, st1)),
        }
    } else {
        sp_primary(s, st)
    }
}

/// One link span, else an emphasis span; a link with empty text keeps it
/// for the resolution pass.
pub open spec fn sp_link(s: Seq<char>, st: InSt) -> Result<(crate::data::SpanV, InSt), ErrV>
    decreases s.len() - st.pos + 1, 3int,
{
    if st.pos < 0 || st.pos > s.len() {
        Result::Err(stuck())
    } else if st.pos + 1 <= s.len() && starts_with_at(s, st.pos, "["@) {
        match sp_until_emph(
            s,
            InSt { pos: st.pos + 1, note_id: st.note_id, notes: st.notes },
            seq!["]("@],
        ) {
            Result::Err(e) => Result::Err(e),
            Result::Ok((tspans, st1)) => if scan_found(s, st1.pos, seq![")"@]) {
                let e = scan_end(s, st1.pos, seq![")"@]);
                Result::Ok(
                    (
                        crate::data::SpanV::Link { text: tspans, url: s.subrange(st1.pos, e) },
                        InSt { pos: e + 1, note_id: st1.note_id, notes: st1.notes },
                    ),
                )
            } else {
                Result::Err(ErrV::Expect(seq![")"@]))
            },
        }
    } else {
        sp_emph(s, st)
    }
}

/// The spans of an enclosed run, one `sp_link` step at a time.
pub open spec fn sp_until_link(s: Seq<char>, st: InSt, terms: Seq<Seq<char>>) -> Result<
    (Seq<crate::data::SpanV>, InSt),
    ErrV,
>
    decreases s.len() - st.pos + 1, 4int,
{
    if st.pos < 0 || st.pos > s.len() {
        Result::Err(stuck())
    } else if st.pos == s.len() {
        Result::Err(ErrV::Expect(terms))
    } else if matches_any_at(s, st.pos, terms) {
        let ft = first_term(terms, s, st.pos);
        Result::Ok(
            (
                Seq::empty(),
                InSt { pos: st.pos + ft.len(), note_id: st.note_id, notes: st.notes },
            ),
        )
    } else {
        match sp_link(s, st) {
            Result::Err(e) => Result::Err(e),
            Result::Ok((sp, st1)) => if st.pos < st1.pos <= s.len() {
                match sp_until_link(s, st1, terms) {
                    Result::Err(e) => Result::Err(e),
                    Result::Ok((rest, st2)) => Result::Ok((seq![sp] + rest, st2)),
                }
            } else {
                Result::Err(stuck())
            },
        }
    }
}

/// One citation span — the next id is assigned and the parsed note body is
/// appended to the collector — else a link span.
pub open spec fn sp_cite(s: Seq<char>, st: InSt) -> Result<(crate::data::SpanV, InSt), ErrV>
    decreases s.len() - st.pos + 1, 5int,
{
    if st.pos < 0 || st.pos > s.len() {
        Result::Err(stuck())
    } else if st.pos + 2 <= s.len() && starts_with_at(s, st.pos, "[^"@) {
        let id = st.note_id + 1;
        match sp_until_link(
            s,
            InSt { pos: st.pos + 2, note_id: id, notes: st.notes },
            seq!["]"@],
        ) {
            Result::Err(e) => Result::Err(e),
            Result::Ok((nspans, st1)) => Result::Ok(
                (
                    crate::data::SpanV::Cite { id },
                    InSt {
                        pos: st1.pos,
                        note_id: st1.note_id,
                        notes: st1.notes.push((nspans, id)),
                    },
                ),
            ),
        }
    } else {
        sp_link(s, st)
    }
}

/// The cells or items of an enclosed run, one `sp_cite` step at a time.
pub open spec fn sp_until_cite(s: Seq<char>, st: InSt, terms: Seq<Seq<char>>) -> Result<
    (Seq<crate::data::SpanV>, InSt),
    ErrV,
>
    decreases s.len() - st.pos + 1, 6int,
{
    if st.pos < 0 || st.pos > s.len() {
        Result::Err(stuck())
    } else if st.pos == s.len() {
        Result::Err(ErrV::Expect(terms))
    } else if matches_any_at(s, st.pos, terms) {
        let ft = first_term(terms, s, st.pos);
        Result::Ok(
            (
                Seq::empty(),
                InSt { pos: st.pos + ft.len(), note_id: st.note_id, notes: st.notes },
            ),
        )
    } else {
        match sp_cite(s, st) {
            Result::Err(e) => Result::Err(e),
            Result::Ok((sp, st1)) => if st.pos < st1.pos <= s.len() {
                match sp_until_cite(s, st1, terms) {
                    Result::Err(e) => Result::Err(e),
                    Result::Ok((rest, st2)) => Result::Ok((seq![sp] + rest, st2)),
                }
            } else {
                Result::Err(stuck())
            },
        }
    }
}

/// One inline line: spans up to and including the line end.
pub open spec fn sp_inline(s: Seq<char>, st: InSt) -> Result<(Seq<crate::data::SpanV>, InSt), ErrV>
    decreases s.len() - st.pos + 1, 7int,
{
    if st.pos < 0 || st.pos > s.len() {
        Result::Err(stuck())
    } else if at_eol(s, st.pos) {
        Result::Ok(
            (
                Seq::empty(),
                InSt { pos: st.pos + eol_adv(s, st.pos), note_id: st.note_id, notes: st.notes },
            ),
        )
    } else {
        match sp_cite(s, st) {
            Result::Err(e) => Result::Err(e),
            Result::Ok((sp, st1)) => if st.pos < st1.pos <= s.len() {
                match sp_inline(s, st1) {
                    Result::Err(e) => Result::Err(e),
                    Result::Ok((rest, st2)) => Result::Ok((seq![sp] + rest, st2)),
                }
            } else {
                Result::Err(stuck())
            },
        }
    }
}

} // verus!

verus! {

impl Parser {
    /// The inline-level view of this parser's state.
    pub closed spec fn ist(&self) -> InSt {
        InSt {
            pos: self.pos as int,
            note_id: self.note_id as int,
            notes: crate::data::notes_view(self.notes@),
        }
    }
}

/// An executable span result with its final state, as the mirror sees it.
pub open spec fn span_res(r: Result<crate::data::Span, SyntaxError>, st: InSt) -> Result<
    (crate::data::SpanV, InSt),
    ErrV,
> {
    match r {
        Result::Ok(sp) => Result::Ok((crate::data::span_view(sp), st)),
        Result::Err(e) => Result::Err(err_view(e)),
    }
}

/// An executable span-list result with its final state, as the mirror sees
/// it.
pub open spec fn spans_res(r: Result<Vec<crate::data::Span>, SyntaxError>, st: InSt) -> Result<
    (Seq<crate::data::SpanV>, InSt),
    ErrV,
> {
    match r {
        Result::Ok(v) => Result::Ok((crate::data::spans_view(v@), st)),
        Result::Err(e) => Result::Err(err_view(e)),
    }
}

/// An executable inline result with its final state, as the mirror sees it.
pub open spec fn inline_res(r: Result<crate::data::Inline, SyntaxError>, st: InSt) -> Result<
    (Seq<crate::data::SpanV>, InSt),
    ErrV,
> {
    match r {
        Result::Ok(i) => Result::Ok((crate::data::inline_view(i), st)),
        Result::Err(e) => Result::Err(err_view(e)),
    }
}

} // verus!

verus! {

/// The length of the run of spaces at position `i`.
pub open spec fn indent_len(s: Seq<char>, i: int) -> int
    decreases s.len() - i,
{
    if i < 0 || i >= s.len() {
        0
    } else if s[i] == ' ' {
        1 + indent_len(s, i + 1)
    } else {
        0
    }
}

/// A maximal run of spaces has the length `indent_len` gives.
pub proof fn lemma_indent_len(s: Seq<char>, i: int, ind: int)
    requires
        0 <= i,
        i + ind <= s.len(),
        0 <= ind,
        forall|t: int| i <= t < i + ind ==> s[t] == ' ',
        i + ind < s.len() ==> s[i + ind] != ' ',
    ensures
        indent_len(s, i) == ind,
    decreases ind,
{
    if ind > 0 {
        lemma_indent_len(s, i + 1, ind - 1);
    }
}

/// One paragraph: a single inline line.
pub open spec fn sp_paragraph(s: Seq<char>, st: InSt) -> Result<(crate::data::BlockV, InSt), ErrV> {
    match sp_inline(s, st) {
        Result::Err(e) => Result::Err(e),
        Result::Ok((spans, st1)) => Result::Ok(
            (crate::data::BlockV::Paragraph { text: spans }, st1),
        ),
    }
}

/// One math block, its opening marker already consumed: raw source up to
/// the closing marker, which is consumed.
pub open spec fn sp_math(s: Seq<char>, st: InSt) -> Result<(crate::data::BlockV, InSt), ErrV> {
    if scan_found(s, st.pos, seq!["$$"@]) {
        let e = scan_end(s, st.pos, seq!["$$"@]);
        Result::Ok(
            (
                crate::data::BlockV::MathBlock { math: s.subrange(st.pos, e) },
                InSt { pos: e + 2, note_id: st.note_id, notes: st.notes },
            ),
        )
    } else {
        Result::Err(ErrV::Expect(seq!["$$"@]))
    }
}

/// One code block, its opening fence already consumed: the language tag to
/// the end of the line, then raw source up to the closing fence.
pub open spec fn sp_code(s: Seq<char>, st: InSt) -> Result<(crate::data::BlockV, InSt), ErrV> {
    let tv1 = seq!["\n"@, "\r\n"@];
    if scan_found(s, st.pos, tv1) {
        let e1 = scan_end(s, st.pos, tv1);
        let p2 = e1 + first_term(tv1, s, e1).len();
        if scan_found(s, p2, seq!["```"@]) {
            let e2 = scan_end(s, p2, seq!["```"@]);
            Result::Ok(
                (
                    crate::data::BlockV::CodeBlock {
                        lang: s.subrange(st.pos, e1),
                        code: s.subrange(p2, e2),
                    },
                    InSt { pos: e2 + 3, note_id: st.note_id, notes: st.notes },
                ),
            )
        } else {
            Result::Err(ErrV::Expect(seq!["```"@]))
        }
    } else {
        Result::Err(ErrV::Expect(tv1))
    }
}

/// The lines of a blockquote, until the closing marker is consumed.
pub open spec fn sp_bq_lines(s: Seq<char>, st: InSt) -> Result<(Seq<Seq<crate::data::SpanV>>, InSt), ErrV>
    decreases s.len() - st.pos + 1,
{
    if st.pos < 0 || st.pos > s.len() {
        Result::Err(stuck())
    } else if st.pos + 2 <= s.len() && starts_with_at(s, st.pos, "<<"@) {
        Result::Ok((Seq::empty(), InSt { pos: st.pos + 2, note_id: st.note_id, notes: st.notes }))
    } else if st.pos == s.len() {
        Result::Err(ErrV::Expect(seq!["<<"@]))
    } else {
        match sp_inline(s, st) {
            Result::Err(e) => Result::Err(e),
            Result::Ok((line, st1)) => if st.pos < st1.pos <= s.len() {
                match sp_bq_lines(s, st1) {
                    Result::Err(e) => Result::Err(e),
                    Result::Ok((rest, st2)) => Result::Ok((seq![line] + rest, st2)),
                }
            } else {
                Result::Err(stuck())
            },
        }
    }
}

/// One blockquote, its opening marker already consumed.
pub open spec fn sp_blockquote(s: Seq<char>, st: InSt) -> Result<(crate::data::BlockV, InSt), ErrV> {
    match sp_bq_lines(s, st) {
        Result::Err(e) => Result::Err(e),
        Result::Ok((lines, st1)) => Result::Ok((crate::data::BlockV::Blockquote { lines }, st1)),
    }
}

/// One list at the given indentation threshold: a line whose leading
/// spaces reach the threshold and carry an item marker opens an item whose
/// body is one inline line and whose sub-list sits one threshold deeper;
/// anything else ends the list, with the counted spaces consumed when they
/// reached the threshold. The order flag reports the most recent marker.
pub open spec fn sp_list(s: Seq<char>, st: InSt, min_indent: int) -> Result<
    (crate::data::ListV, InSt),
    ErrV,
>
    decreases s.len() - st.pos + 1, 1int,
{
    if st.pos < 0 || st.pos > s.len() {
        Result::Err(stuck())
    } else if st.pos == s.len() {
        Result::Ok((crate::data::ListV { ordered: false, items: Seq::empty() }, st))
    } else {
        let ind = indent_len(s, st.pos);
        if ind < min_indent {
            Result::Ok((crate::data::ListV { ordered: false, items: Seq::empty() }, st))
        } else {
            let p1 = st.pos + ind;
            if p1 + 2 <= s.len() && starts_with_at(s, p1, "- "@) {
                sp_list_item(s, st, min_indent, ind, false)
            } else if p1 + 2 <= s.len() && starts_with_at(s, p1, "+ "@) {
                sp_list_item(s, st, min_indent, ind, true)
            } else {
                Result::Ok(
                    (
                        crate::data::ListV { ordered: false, items: Seq::empty() },
                        InSt { pos: p1, note_id: st.note_id, notes: st.notes },
                    ),
                )
            }
        }
    }
}

/// One list item at indentation `ind` (marker present): its inline body,
/// its nested sub-list, then the rest of the list at the same threshold.
pub open spec fn sp_list_item(s: Seq<char>, st: InSt, min_indent: int, ind: int, m: bool)
    -> Result<(crate::data::ListV, InSt), ErrV>
    decreases s.len() - st.pos + 1, 0int,
{
    if !(0 <= st.pos && st.pos + ind + 2 <= s.len()) {
        Result::Err(stuck())
    } else {
        match sp_inline(s, InSt { pos: st.pos + ind + 2, note_id: st.note_id, notes: st.notes }) {
            Result::Err(e) => Result::Err(e),
            Result::Ok((item, st2)) => if st.pos < st2.pos <= s.len() {
                match sp_list(s, st2, ind + 1) {
                    Result::Err(e) => Result::Err(e),
                    Result::Ok((sub, st3)) => if st.pos < st3.pos <= s.len() {
                        match sp_list(s, st3, min_indent) {
                            Result::Err(e) => Result::Err(e),
                            Result::Ok((rest, st4)) => Result::Ok(
                                (
                                    crate::data::ListV {
                                        ordered: if rest.items.len() == 0 {
                                            m
                                        } else {
                                            rest.ordered
                                        },
                                        items: seq![
                                            crate::data::ItemV { item, list: sub },
                                        ] + rest.items,
                                    },
                                    st4,
                                ),
                            ),
                        }
                    } else {
                        Result::Err(stuck())
                    },
                }
            } else {
                Result::Err(stuck())
            },
        }
    }
}

/// One embed, its opening marker already consumed: the caption up to the
/// URL opener, the URL up to its closing parenthesis; an image for a
/// raster suffix, else a link card left for the resolution pass.
pub open spec fn sp_embed(s: Seq<char>, st: InSt) -> Result<(crate::data::BlockV, InSt), ErrV> {
    match sp_until_cite(s, st, seq!["]("@]) {
        Result::Err(e) => Result::Err(e),
        Result::Ok((caption, st1)) => if scan_found(s, st1.pos, seq![")"@]) {
            let e = scan_end(s, st1.pos, seq![")"@]);
            let url = s.subrange(st1.pos, e);
            let st2 = InSt { pos: e + 1, note_id: st1.note_id, notes: st1.notes };
            if seq_ends_with(url, ".png"@) || seq_ends_with(url, ".jpg"@) {
                Result::Ok((crate::data::BlockV::Image { title: caption, url }, st2))
            } else {
                Result::Ok(
                    (
                        crate::data::BlockV::LinkCard {
                            title: Seq::empty(),
                            image: Option::None,
                            url,
                            description: Option::None,
                            site_name: Option::None,
                        },
                        st2,
                    ),
                )
            }
        } else {
            Result::Err(ErrV::Expect(seq![")"@]))
        },
    }
}

/// The cells of one table row, up to the line end.
pub open spec fn sp_cells(s: Seq<char>, st: InSt) -> Result<(Seq<Seq<crate::data::SpanV>>, InSt), ErrV>
    decreases s.len() - st.pos + 1,
{
    if st.pos < 0 || st.pos > s.len() {
        Result::Err(stuck())
    } else if at_eol(s, st.pos) {
        Result::Ok(
            (
                Seq::empty(),
                InSt { pos: st.pos + eol_adv(s, st.pos), note_id: st.note_id, notes: st.notes },
            ),
        )
    } else {
        match sp_until_cite(s, st, seq!["|"@]) {
            Result::Err(e) => Result::Err(e),
            Result::Ok((cell, st1)) => if st.pos < st1.pos <= s.len() {
                match sp_cells(s, st1) {
                    Result::Err(e) => Result::Err(e),
                    Result::Ok((rest, st2)) => Result::Ok((seq![cell] + rest, st2)),
                }
            } else {
                Result::Err(stuck())
            },
        }
    }
}

/// One table row: a dash-led separator is consumed to its line end and
/// ends the row group; a pipe-led row yields its cells; anything else ends
/// the row group without consuming.
pub open spec fn sp_table_row(s: Seq<char>, st: InSt) -> Result<
    (Option<Seq<Seq<crate::data::SpanV>>>, InSt),
    ErrV,
> {
    if st.pos < 0 || st.pos > s.len() {
        Result::Err(stuck())
    } else if st.pos + 1 <= s.len() && starts_with_at(s, st.pos, "-"@) {
        let tv = seq!["\n"@, "\r\n"@];
        if scan_found(s, st.pos + 1, tv) {
            let e = scan_end(s, st.pos + 1, tv);
            Result::Ok(
                (
                    Option::None,
                    InSt {
                        pos: e + first_term(tv, s, e).len(),
                        note_id: st.note_id,
                        notes: st.notes,
                    },
                ),
            )
        } else {
            Result::Err(ErrV::Expect(tv))
        }
    } else if st.pos + 1 <= s.len() && starts_with_at(s, st.pos, "|"@) {
        match sp_cells(s, InSt { pos: st.pos + 1, note_id: st.note_id, notes: st.notes }) {
            Result::Err(e) => Result::Err(e),
            Result::Ok((cells, st1)) => Result::Ok((Option::Some(cells), st1)),
        }
    } else {
        Result::Ok((Option::None, st))
    }
}

/// One row group: rows until a separator or a non-row line ends it.
pub open spec fn sp_table_rows(s: Seq<char>, st: InSt) -> Result<
    (Seq<Seq<Seq<crate::data::SpanV>>>, InSt),
    ErrV,
>
    decreases s.len() - st.pos + 1,
{
    if st.pos < 0 || st.pos > s.len() {
        Result::Err(stuck())
    } else {
        match sp_table_row(s, st) {
            Result::Err(e) => Result::Err(e),
            Result::Ok((Option::None, st1)) => Result::Ok((Seq::empty(), st1)),
            Result::Ok((Option::Some(row), st1)) => if st.pos < st1.pos <= s.len() {
                match sp_table_rows(s, st1) {
                    Result::Err(e) => Result::Err(e),
                    Result::Ok((rest, st2)) => Result::Ok((seq![row] + rest, st2)),
                }
            } else {
                Result::Err(stuck())
            },
        }
    }
}

/// One table: header rows, then — after the separator that ended them —
/// body rows.
pub open spec fn sp_table(s: Seq<char>, st: InSt) -> Result<(crate::data::BlockV, InSt), ErrV> {
    match sp_table_rows(s, st) {
        Result::Err(e) => Result::Err(e),
        Result::Ok((head, st1)) => match sp_table_rows(s, st1) {
            Result::Err(e) => Result::Err(e),
            Result::Ok((body, st2)) => Result::Ok((crate::data::BlockV::Table { head, body }, st2)),
        },
    }
}

/// One heading at the given level, its marker already consumed: one inline
/// line; a level-one heading sets the title, a deeper one registers its
/// anchor text for a unique id and lands in the table of contents by the
/// level descent, failing when a descent target is missing.
pub open spec fn sp_header(s: Seq<char>, st: StV, level: int) -> Result<(crate::data::BlockV, StV), ErrV> {
    match sp_inline(s, ist_of(st)) {
        Result::Err(e) => Result::Err(e),
        Result::Ok((hspans, ist1)) => {
            let anchor = anchor_text(hspans);
            if level == 1 {
                Result::Ok(
                    (
                        crate::data::BlockV::Header { header: hspans, level: 1, id: anchor },
                        StV {
                            pos: ist1.pos,
                            note_id: ist1.note_id,
                            notes: ist1.notes,
                            counts: st.counts,
                            title: anchor,
                            toc: st.toc,
                            content: st.content,
                        },
                    ),
                )
            } else {
                let cnt = st.counts[anchor];
                let newc: nat = if cnt < usize::MAX as nat {
                    cnt + 1
                } else {
                    cnt
                };
                let id = suffixed_id(anchor, cnt);
                let entry = crate::data::ItemV {
                    item: seq![
                        crate::data::SpanV::Link {
                            text: toc_flatten_spec(hspans),
                            url: seq!['#'] + id,
                        },
                    ],
                    list: (crate::data::ListV { ordered: true, items: Seq::empty() }),
                };
                match toc_insert_spec(st.toc, level - 2, entry) {
                    Option::None => Result::Err(ErrV::HeadingSkip),
                    Option::Some(t) => Result::Ok(
                        (
                            crate::data::BlockV::Header { header: hspans, level, id },
                            StV {
                                pos: ist1.pos,
                                note_id: ist1.note_id,
                                notes: ist1.notes,
                                counts: st.counts.insert(anchor, newc),
                                title: st.title,
                                toc: t,
                                content: st.content,
                            },
                        ),
                    ),
                }
            }
        },
    }
}

/// One block: first-match dispatch on the leading characters, the matched
/// prefix consumed.
#[verifier::opaque]
pub open spec fn sp_block(s: Seq<char>, st: StV) -> Result<(crate::data::BlockV, StV), ErrV> {
    let p = st.pos;
    if p < 0 || p > s.len() {
        Result::Err(stuck())
    } else if p + 2 <= s.len() && starts_with_at(s, p, "# "@) {
        sp_header(s, StV { pos: p + 2, ..st }, 1)
    } else if p + 3 <= s.len() && starts_with_at(s, p, "## "@) {
        sp_header(s, StV { pos: p + 3, ..st }, 2)
    } else if p + 4 <= s.len() && starts_with_at(s, p, "### "@) {
        sp_header(s, StV { pos: p + 4, ..st }, 3)
    } else if p + 5 <= s.len() && starts_with_at(s, p, "#### "@) {
        sp_header(s, StV { pos: p + 5, ..st }, 4)
    } else if p + 6 <= s.len() && starts_with_at(s, p, "##### "@) {
        sp_header(s, StV { pos: p + 6, ..st }, 5)
    } else if p + 7 <= s.len() && starts_with_at(s, p, "###### "@) {
        sp_header(s, StV { pos: p + 7, ..st }, 6)
    } else if p + 2 <= s.len() && starts_with_at(s, p, ">>"@) {
        lift_ist(st, sp_blockquote(s, InSt { pos: p + 2, note_id: st.note_id, notes: st.notes }))
    } else if starts_with_at(s, p, "- "@) || starts_with_at(s, p, "+ "@) {
        match sp_list(s, ist_of(st), 0) {
            Result::Err(e) => Result::Err(e),
            Result::Ok((l, ist1)) => Result::Ok(
                (crate::data::BlockV::ListBlock(l), with_ist(st, ist1)),
            ),
        }
    } else if p + 2 <= s.len() && starts_with_at(s, p, "@["@) {
        lift_ist(st, sp_embed(s, InSt { pos: p + 2, note_id: st.note_id, notes: st.notes }))
    } else if starts_with_at(s, p, "|"@) {
        lift_ist(st, sp_table(s, ist_of(st)))
    } else if p + 2 <= s.len() && starts_with_at(s, p, "$$"@) {
        lift_ist(st, sp_math(s, InSt { pos: p + 2, note_id: st.note_id, notes: st.notes }))
    } else if p + 3 <= s.len() && starts_with_at(s, p, "```"@) {
        lift_ist(st, sp_code(s, InSt { pos: p + 3, note_id: st.note_id, notes: st.notes }))
    } else if p + 3 <= s.len() && starts_with_at(s, p, "[^]"@) {
        Result::Ok(
            (
                crate::data::BlockV::Ref(st.notes),
                StV { pos: p + 3, notes: Seq::empty(), ..st },
            ),
        )
    } else {
        lift_ist(st, sp_paragraph(s, ist_of(st)))
    }
}

/// A block outcome over the inline state, lifted to the whole state.
pub open spec fn lift_ist(st: StV, r: Result<(crate::data::BlockV, InSt), ErrV>) -> Result<
    (crate::data::BlockV, StV),
    ErrV,
> {
    match r {
        Result::Err(e) => Result::Err(e),
        Result::Ok((b, ist1)) => Result::Ok((b, with_ist(st, ist1))),
    }
}

/// Whether the document keeps a parsed block: an empty paragraph is
/// discarded, and a level-one heading contributes only the title.
pub open spec fn skip_block(b: crate::data::BlockV) -> bool {
    ||| (b matches crate::data::BlockV::Paragraph { text } && text.len() == 0)
    ||| (b matches crate::data::BlockV::Header { header, level, id } && level == 1)
}

/// The whole document: blocks until the input is exhausted, then the
/// unconditional final flush of the footnote collector.
#[verifier::opaque]
pub open spec fn sp_document(s: Seq<char>, st: StV) -> Result<StV, ErrV>
    decreases s.len() - st.pos + 1,
{
    if st.pos < 0 || st.pos > s.len() {
        Result::Err(stuck())
    } else if st.pos == s.len() {
        Result::Ok(
            StV {
                notes: Seq::empty(),
                content: st.content.push(crate::data::BlockV::Ref(st.notes)),
                ..st
            },
        )
    } else {
        match sp_block(s, st) {
            Result::Err(e) => Result::Err(e),
            Result::Ok((b, st1)) => if st.pos < st1.pos <= s.len() {
                sp_document(
                    s,
                    if skip_block(b) {
                        st1
                    } else {
                        StV { content: st1.content.push(b), ..st1 }
                    },
                )
            } else {
                Result::Err(stuck())
            },
        }
    }
}

/// An empty list the mirror returns is unordered (the item path always
/// yields at least one item).
pub proof fn lemma_sp_list_shape(s: Seq<char>, st: InSt, min_indent: int)
    ensures
        sp_list(s, st, min_indent) matches Ok(p) ==> (p.0.items.len() == 0 ==> p.0.ordered
            == false),
{
    match sp_list(s, st, min_indent) {
        Result::Ok(p) => {
            if p.0.items.len() == 0 {
                assert(p.0.ordered == false);
            }
        },
        Result::Err(e) => {},
    }
}

/// The list loop's accumulation: parsing the rest of the list from the
/// current state and combining it with the items and order flag gathered
/// so far gives the parse of the whole list.
#[verifier::opaque]
pub open spec fn list_compose(
    s: Seq<char>,
    st0: InSt,
    st1: InSt,
    ordered: bool,
    itemsv: Seq<crate::data::ItemV>,
    min_indent: int,
) -> bool {
    sp_list(s, st0, min_indent) == (match sp_list(s, st1, min_indent) {
        Result::Ok(p) => Result::<(crate::data::ListV, InSt), ErrV>::Ok(
            (
                crate::data::ListV {
                    ordered: if p.0.items.len() == 0 {
                        ordered
                    } else {
                        p.0.ordered
                    },
                    items: itemsv + p.0.items,
                },
                p.1,
            ),
        ),
        Result::Err(e) => Result::Err(e),
    })
}

/// Unfolds one successful list-item step of the mirror: the item's inline
/// body and nested sub-list parsed, the rest of the list continues at the
/// same threshold.
pub proof fn lemma_sp_list_item_unfold(
    s: Seq<char>,
    cur: InSt,
    min_indent: int,
    ind: int,
    m: bool,
    itemv: Seq<crate::data::SpanV>,
    st2: InSt,
    subv: crate::data::ListV,
    st3: InSt,
)
    requires
        0 <= cur.pos,
        cur.pos + ind + 2 <= s.len(),
        sp_inline(
            s,
            InSt { pos: cur.pos + ind + 2, note_id: cur.note_id, notes: cur.notes },
        ) == Result::<(Seq<crate::data::SpanV>, InSt), ErrV>::Ok((itemv, st2)),
        cur.pos < st2.pos <= s.len(),
        sp_list(s, st2, ind + 1) == Result::<(crate::data::ListV, InSt), ErrV>::Ok((subv, st3)),
        cur.pos < st3.pos <= s.len(),
    ensures
        sp_list_item(s, cur, min_indent, ind, m) == (match sp_list(s, st3, min_indent) {
            Result::Ok(p) => Result::<(crate::data::ListV, InSt), ErrV>::Ok(
                (
                    crate::data::ListV {
                        ordered: if p.0.items.len() == 0 {
                            m
                        } else {
                            p.0.ordered
                        },
                        items: seq![crate::data::ItemV { item: itemv, list: subv }] + p.0.items,
                    },
                    p.1,
                ),
            ),
            Result::Err(e) => Result::Err(e),
        }),
{
}

/// The document loop's accumulation: the mirror parse of the whole
/// document from the starting state equals its parse from the current one.
#[verifier::opaque]
pub open spec fn doc_compose(s: Seq<char>, st0: StV, st1: StV) -> bool {
    sp_document(s, st0) == sp_document(s, st1)
}

/// The state a conversion starts from.
pub open spec fn init_st() -> StV {
    StV {
        pos: 0,
        note_id: 0,
        notes: Seq::empty(),
        counts: Map::new(|k: Seq<char>| true, |k: Seq<char>| 0nat),
        title: Seq::empty(),
        toc: (crate::data::ListV { ordered: true, items: Seq::empty() }),
        content: Seq::empty(),
    }
}

/// An executable block result with its final state, as the mirror sees it.
pub open spec fn block_res(r: Result<crate::data::Block, SyntaxError>, st: StV) -> Result<
    (crate::data::BlockV, StV),
    ErrV,
> {
    match r {
        Result::Ok(b) => Result::Ok((crate::data::block_view(b), st)),
        Result::Err(e) => Result::Err(err_view(e)),
    }
}

/// An executable list result with its final state, as the mirror sees it.
pub open spec fn list_res(r: Result<crate::data::List, SyntaxError>, st: InSt) -> Result<
    (crate::data::ListV, InSt),
    ErrV,
> {
    match r {
        Result::Ok(l) => Result::Ok((crate::data::list_view(l), st)),
        Result::Err(e) => Result::Err(err_view(e)),
    }
}

/// An executable row result with its final state, as the mirror sees it.
pub open spec fn row_res(
    r: Result<Option<Vec<crate::data::Inline>>, SyntaxError>,
    st: InSt,
) -> Result<(Option<Seq<Seq<crate::data::SpanV>>>, InSt), ErrV> {
    match r {
        Result::Ok(Option::None) => Result::Ok((Option::None, st)),
        Result::Ok(Option::Some(row)) => Result::Ok(
            (Option::Some(crate::data::row_view(row)), st),
        ),
        Result::Err(e) => Result::Err(err_view(e)),
    }
}

/// An executable row-group result with its final state, as the mirror sees
/// it.
pub open spec fn rows_res(
    r: Result<Vec<Vec<crate::data::Inline>>, SyntaxError>,
    st: InSt,
) -> Result<(Seq<Seq<Seq<crate::data::SpanV>>>, InSt), ErrV> {
    match r {
        Result::Ok(rows) => Result::Ok((crate::data::rows_view(rows@), st)),
        Result::Err(e) => Result::Err(err_view(e)),
    }
}

impl Parser {
    /// The whole-state view of this parser.
    pub closed spec fn stv(&self) -> StV {
        StV {
            pos: self.pos as int,
            note_id: self.note_id as int,
            notes: crate::data::notes_view(self.notes@),
            counts: Map::new(|k: Seq<char>| true, |k: Seq<char>| self.headers.count(k)),
            title: self.title@,
            toc: crate::data::list_view(self.toc),
            content: crate::data::blocks_view(self.content@),
        }
    }
}

} // verus!

verus! {

/// An executable block result with its final inline state, as the mirror
/// sees it.
pub open spec fn iblock_res(r: Result<crate::data::Block, SyntaxError>, st: InSt) -> Result<
    (crate::data::BlockV, InSt),
    ErrV,
> {
    match r {
        Result::Ok(b) => Result::Ok((crate::data::block_view(b), st)),
        Result::Err(e) => Result::Err(err_view(e)),
    }
}

} // verus!
