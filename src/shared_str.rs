use std::sync::Arc;
use vstd::prelude::*;
use vstd::std_specs::cmp::PartialEqSpec;

verus! {

/// The Unicode `White_Space` property.
pub open spec fn is_white_space(c: char) -> bool {
    let u = c as u32;
    (0x09 <= u && u <= 0x0d) || u == 0x20 || u == 0x85 || u == 0xa0 || u == 0x1680 || (0x2000
        <= u && u <= 0x200a) || u == 0x2028 || u == 0x2029 || u == 0x202f || u == 0x205f || u
        == 0x3000
}

/// First index at or after `i` that does not hold white space (or the end).
pub open spec fn skip_ws(s: Seq<char>, i: int) -> int
    decreases s.len() - i,
{
    if i < 0 || i >= s.len() || !is_white_space(s[i]) {
        i
    } else {
        skip_ws(s, i + 1)
    }
}

/// First index at or after `i` that holds white space (or the end).
pub open spec fn token_end(s: Seq<char>, i: int) -> int
    decreases s.len() - i,
{
    if i < 0 || i >= s.len() || is_white_space(s[i]) {
        i
    } else {
        token_end(s, i + 1)
    }
}

/// Last index at or before `k` such that the character before it is not white space.
pub open spec fn skip_ws_back(s: Seq<char>, k: int) -> int
    decreases k,
{
    if k <= 0 || k > s.len() || !is_white_space(s[k - 1]) {
        k
    } else {
        skip_ws_back(s, k - 1)
    }
}

/// `s` without its leading white space.
pub open spec fn trim_start(s: Seq<char>) -> Seq<char> {
    s.subrange(skip_ws(s, 0), s.len() as int)
}

/// `s` without its trailing white space.
pub open spec fn trim_end(s: Seq<char>) -> Seq<char> {
    s.subrange(0, skip_ws_back(s, s.len() as int))
}

/// `s` without leading or trailing white space.
pub open spec fn trim(s: Seq<char>) -> Seq<char> {
    trim_end(trim_start(s))
}

/// The maximal runs of non-white-space characters of `s` from index `i` on, in order.
pub open spec fn words_from(s: Seq<char>, i: int) -> Seq<Seq<char>>
    decreases s.len() - i,
    via words_from_decreases
{
    if 0 <= i && skip_ws(s, i) < s.len() {
        let j = skip_ws(s, i);
        let k = token_end(s, j + 1);
        seq![s.subrange(j, k)] + words_from(s, k)
    } else {
        seq![]
    }
}

/// The white-space separated words of `s`, in order.
pub open spec fn words(s: Seq<char>) -> Seq<Seq<char>> {
    words_from(s, 0)
}

#[via_fn]
proof fn words_from_decreases(s: Seq<char>, i: int) {
    if 0 <= i && skip_ws(s, i) < s.len() {
        lemma_skip_ws_bounds(s, i);
        lemma_token_end_bounds(s, skip_ws(s, i) + 1);
    }
}

pub proof fn lemma_skip_ws_bounds(s: Seq<char>, i: int)
    requires
        0 <= i <= s.len(),
    ensures
        i <= skip_ws(s, i) <= s.len(),
        skip_ws(s, i) < s.len() ==> !is_white_space(s[skip_ws(s, i)]),
        forall|m: int| i <= m < skip_ws(s, i) ==> is_white_space(#[trigger] s[m]),
    decreases s.len() - i,
{
    if i < s.len() && is_white_space(s[i]) {
        lemma_skip_ws_bounds(s, i + 1);
    }
}

pub proof fn lemma_token_end_bounds(s: Seq<char>, i: int)
    requires
        0 <= i <= s.len(),
    ensures
        i <= token_end(s, i) <= s.len(),
        token_end(s, i) < s.len() ==> is_white_space(s[token_end(s, i)]),
        forall|m: int| i <= m < token_end(s, i) ==> !is_white_space(#[trigger] s[m]),
    decreases s.len() - i,
{
    if i < s.len() && !is_white_space(s[i]) {
        lemma_token_end_bounds(s, i + 1);
    }
}

/// Whether `c` has the Unicode `White_Space` property (what `char::is_whitespace` and
/// a regular expression's `\s` test).
pub(crate) fn char_is_whitespace(c: char) -> (r: bool)
    ensures
        r == is_white_space(c),
{
    let u = c as u32;
    (0x09 <= u && u <= 0x0d) || u == 0x20 || u == 0x85 || u == 0xa0 || u == 0x1680 || (0x2000
        <= u && u <= 0x200a) || u == 0x2028 || u == 0x2029 || u == 0x202f || u == 0x205f || u
        == 0x3000
}

/// The characters of `s`, in order.
fn chars_of(s: &str) -> (r: Vec<char>)
    ensures
        r@ == s@,
{
    broadcast use vstd::string::group_string_axioms;

    let mut v: Vec<char> = Vec::new();
    for c in it: s.chars()
        invariant
            it.seq() == s@,
            v@ == it.seq().subrange(0, it.index() as int),
    {
        v.push(c);
    }
    v
}

/// Relies on collecting a run of characters into a `String` (`FromIterator<&char>`).
#[verifier::external_body]
fn string_of(v: &Vec<char>, start: usize, end: usize) -> (r: String)
    requires
        start <= end <= v@.len(),
    ensures
        r@ == v@.subrange(start as int, end as int),
{
    v[start..end].iter().collect()
}

/// An immutable text that shares its backing buffer with the texts it was cut from.
///
/// A value is a window `start .. start + len` (in characters) into a reference-counted
/// buffer. Trimming, splitting and slicing hand out new windows onto the same buffer;
/// only text from elsewhere is copied into a buffer of its own.
pub struct SharedStr {
    buf: Arc<Vec<char>>,
    start: usize,
    len: usize,
}

impl Clone for SharedStr {
    /// Another handle onto the same buffer and window.
    fn clone(&self) -> (r: SharedStr)
        ensures
            r == *self,
    {
        proof {
            use_type_invariant(self);
        }
        SharedStr { buf: Arc::clone(&self.buf), start: self.start, len: self.len }
    }
}

impl View for SharedStr {
    type V = Seq<char>;

    closed spec fn view(&self) -> Seq<char> {
        self.buf@.subrange(self.start as int, self.start + self.len)
    }
}

impl SharedStr {
    #[verifier::type_invariant]
    spec fn inv(self) -> bool {
        self.start + self.len <= self.buf@.len() <= usize::MAX
    }

    /// The whole backing buffer that this text is a window into.
    pub closed spec fn buffer(&self) -> Seq<char> {
        self.buf@
    }

    /// Where the window starts in the backing buffer.
    pub closed spec fn offset(&self) -> nat {
        self.start as nat
    }

    /// A text with a freshly allocated buffer holding exactly `v`.
    fn from_chars(v: Vec<char>) -> (r: SharedStr)
        ensures
            r@ == v@,
            r.buffer() == v@,
            r.offset() == 0,
    {
        let len = v.len();
        let r = SharedStr { buf: Arc::new(v), start: 0, len };
        assert(r@ =~= v@);
        r
    }

    /// A text with a freshly allocated buffer holding a copy of `s`.
    pub fn from_text(s: &str) -> (r: SharedStr)
        ensures
            r@ == s@,
            r.buffer() == s@,
            r.offset() == 0,
    {
        SharedStr::from_chars(chars_of(s))
    }

    /// The window `a .. b` of this text's own window, on the same buffer.
    fn window(&self, a: usize, b: usize) -> (r: SharedStr)
        requires
            a <= b <= self@.len(),
        ensures
            r@ == self@.subrange(a as int, b as int),
            r.buffer() == self.buffer(),
            r.offset() == self.offset() + a,
            r@ == r.buffer().subrange(r.offset() as int, (r.offset() + r@.len()) as int),
    {
        proof {
            use_type_invariant(self);
        }
        let r = SharedStr { buf: self.buf.clone(), start: self.start + a, len: b - a };
        assert(r@ =~= self@.subrange(a as int, b as int));
        r
    }

    /// The text, copied out into a `String`.
    pub fn as_str(&self) -> (r: String)
        ensures
            r@ == self@,
    {
        proof {
            use_type_invariant(self);
        }
        string_of(&self.buf, self.start, self.start + self.len)
    }

    /// The number of characters in the text.
    pub fn len(&self) -> (r: usize)
        ensures
            r == self@.len(),
    {
        proof {
            use_type_invariant(self);
        }
        self.len
    }

    pub fn is_empty(&self) -> (r: bool)
        ensures
            r == (self@.len() == 0),
    {
        proof {
            use_type_invariant(self);
        }
        self.len == 0
    }

    /// The character at position `i` of the text.
    pub fn char_at(&self, i: usize) -> (r: char)
        requires
            i < self@.len(),
        ensures
            r == self@[i as int],
    {
        proof {
            use_type_invariant(self);
        }
        self.buf[self.start + i]
    }
}


impl SharedStr {
    /// This text without its leading white space, on the same buffer.
    pub fn trim_left(&self) -> (r: SharedStr)
        ensures
            r@ == trim_start(self@),
            r.buffer() == self.buffer(),
            r.offset() == self.offset() + skip_ws(self@, 0),
    {
        let n = self.len();
        let mut i: usize = 0;
        while i < n
            invariant
                n == self@.len(),
                i <= n,
                skip_ws(self@, i as int) == skip_ws(self@, 0),
            ensures
                skip_ws(self@, 0) == i,
            decreases n - i,
        {
            if !char_is_whitespace(self.char_at(i)) {
                break;
            }
            i = i + 1;
        }
        self.window(i, n)
    }

    /// This text without its trailing white space, on the same buffer.
    pub fn trim_right(&self) -> (r: SharedStr)
        ensures
            r@ == trim_end(self@),
            r.buffer() == self.buffer(),
            r.offset() == self.offset(),
    {
        let n = self.len();
        let mut k: usize = n;
        while k > 0
            invariant
                n == self@.len(),
                k <= n,
                skip_ws_back(self@, k as int) == skip_ws_back(self@, n as int),
            ensures
                skip_ws_back(self@, n as int) == k,
            decreases k,
        {
            if !char_is_whitespace(self.char_at(k - 1)) {
                break;
            }
            k = k - 1;
        }
        self.window(0, k)
    }

    /// This text without leading or trailing white space, on the same buffer.
    pub fn trim(&self) -> (r: SharedStr)
        ensures
            r@ == trim(self@),
            r.buffer() == self.buffer(),
            r.offset() == self.offset() + skip_ws(self@, 0),
    {
        self.trim_left().trim_right()
    }

    /// The two texts on either side of position `mid`, on the same buffer.
    pub fn split_at(&self, mid: usize) -> (r: (SharedStr, SharedStr))
        requires
            mid <= self@.len(),
        ensures
            r.0@ == self@.subrange(0, mid as int),
            r.1@ == self@.subrange(mid as int, self@.len() as int),
            r.0.buffer() == self.buffer(),
            r.1.buffer() == self.buffer(),
            r.0.offset() == self.offset(),
            r.1.offset() == self.offset() + mid,
    {
        let n = self.len();
        (self.window(0, mid), self.window(mid, n))
    }

    /// The characters at positions `start .. end`, on the same buffer.
    pub fn slice(&self, start: usize, end: usize) -> (r: SharedStr)
        requires
            start <= end <= self@.len(),
        ensures
            r@ == self@.subrange(start as int, end as int),
            r.buffer() == self.buffer(),
            r.offset() == self.offset() + start,
            r@ == r.buffer().subrange(r.offset() as int, (r.offset() + r@.len()) as int),
    {
        self.window(start, end)
    }

    /// The characters from position `start` to the end, on the same buffer.
    pub fn slice_from(&self, start: usize) -> (r: SharedStr)
        requires
            start <= self@.len(),
        ensures
            r@ == self@.subrange(start as int, self@.len() as int),
            r.buffer() == self.buffer(),
            r.offset() == self.offset() + start,
    {
        let n = self.len();
        self.window(start, n)
    }

    /// The white-space separated words of this text, in order, each on the same buffer.
    pub fn split_whitespace(&self) -> (r: Vec<SharedStr>)
        ensures
            r@.len() == words(self@).len(),
            forall|m: int| 0 <= m < r@.len() ==> (#[trigger] r@[m])@ == words(self@)[m],
            forall|m: int| 0 <= m < r@.len() ==> (#[trigger] r@[m]).buffer() == self.buffer(),
    {
        let ghost s = self@;
        let n = self.len();
        let mut out: Vec<SharedStr> = Vec::new();
        let mut i: usize = 0;
        while i < n
            invariant
                n == s.len(),
                s == self@,
                i <= n,
                out@.len() + words_from(s, i as int).len() == words(s).len(),
                forall|m: int| 0 <= m < out@.len() ==> (#[trigger] out@[m])@ == words(s)[m],
                forall|m: int| 0 <= m < out@.len() ==> (#[trigger] out@[m]).buffer() == self.buffer(),
                forall|m: int|
                    0 <= m < words_from(s, i as int).len() ==> #[trigger] words_from(
                        s,
                        i as int,
                    )[m] == words(s)[out@.len() + m],
            decreases n - i,
        {
            let i0 = i;
            let mut j: usize = i;
            while j < n
                invariant
                    n == s.len(),
                    s == self@,
                    i0 <= j <= n,
                    skip_ws(s, j as int) == skip_ws(s, i0 as int),
                ensures
                    skip_ws(s, i0 as int) == j,
                decreases n - j,
            {
                if !char_is_whitespace(self.char_at(j)) {
                    break;
                }
                j = j + 1;
            }
            if j == n {
                assert(words_from(s, i0 as int) =~= seq![]);
                i = n;
            } else {
                let mut k: usize = j + 1;
                while k < n
                    invariant
                        n == s.len(),
                        s == self@,
                        j < k <= n,
                        token_end(s, k as int) == token_end(s, j + 1),
                    ensures
                        token_end(s, j + 1) == k,
                    decreases n - k,
                {
                    if char_is_whitespace(self.char_at(k)) {
                        break;
                    }
                    k = k + 1;
                }
                let w = self.window(j, k);
                proof {
                    let ws = words_from(s, i0 as int);
                    assert(ws == seq![s.subrange(j as int, k as int)] + words_from(s, k as int));
                    assert(ws[0] == s.subrange(j as int, k as int));
                    assert forall|m: int| 0 <= m < words_from(s, k as int).len() implies
                        #[trigger] words_from(s, k as int)[m] == words(s)[out@.len() + 1 + m] by {
                        assert(words_from(s, k as int)[m] == ws[m + 1]);
                    }
                }
                out.push(w);
                i = k;
            }
        }
        proof {
            assert(words_from(s, n as int) =~= seq![]);
        }
        out
    }

    /// Whether this text begins with the text `p`.
    pub fn starts_with(&self, p: &SharedStr) -> (r: bool)
        ensures
            r == (p@.len() <= self@.len() && self@.subrange(0, p@.len() as int) == p@),
    {
        let n = p.len();
        if n > self.len() {
            return false;
        }
        let mut i: usize = 0;
        while i < n
            invariant
                n == p@.len(),
                n <= self@.len(),
                i <= n,
                forall|m: int| 0 <= m < i ==> self@[m] == p@[m],
            decreases n - i,
        {
            if self.char_at(i) != p.char_at(i) {
                assert(self@.subrange(0, n as int)[i as int] != p@[i as int]);
                return false;
            }
            i = i + 1;
        }
        assert(self@.subrange(0, n as int) =~= p@);
        true
    }

    /// Whether this text begins with the character `c`.
    pub fn starts_with_char(&self, c: char) -> (r: bool)
        ensures
            r == (self@.len() > 0 && self@[0] == c),
    {
        self.len() > 0 && self.char_at(0) == c
    }

    /// Whether this text and `other` hold the same characters.
    pub fn same_text(&self, other: &SharedStr) -> (r: bool)
        ensures
            r == (self@ == other@),
    {
        if self.len() != other.len() {
            return false;
        }
        let r = self.starts_with(other);
        proof {
            assert(self@ =~= self@.subrange(0, other@.len() as int));
        }
        r
    }

    /// A text holding `s`: a window onto this text's buffer where `s` is empty, else a
    /// copy of `s` in a buffer of its own.
    pub fn from_str(&self, s: &str) -> (r: SharedStr)
        ensures
            r@ == s@,
            s@.len() == 0 ==> r.buffer() == self.buffer(),
            s@.len() > 0 ==> r.buffer() == s@ && r.offset() == 0,
    {
        let v = chars_of(s);
        if v.len() == 0 {
            self.window(0, 0)
        } else {
            SharedStr::from_chars(v)
        }
    }
}

impl PartialEq for SharedStr {
    /// Equal texts, whatever buffers they sit in.
    fn eq(&self, other: &SharedStr) -> (r: bool) {
        self.same_text(other)
    }
}

impl vstd::std_specs::cmp::PartialEqSpecImpl for SharedStr {
    open spec fn obeys_eq_spec() -> bool {
        true
    }

    open spec fn eq_spec(&self, other: &SharedStr) -> bool {
        self@ == other@
    }
}

impl Eq for SharedStr {

}

impl From<&str> for SharedStr {
    /// The same as `SharedStr::from_text`, whose contract states the result.
    fn from(s: &str) -> (r: SharedStr) {
        SharedStr::from_text(s)
    }
}

impl vstd::std_specs::convert::FromSpecImpl<&str> for SharedStr {
    /// A fresh buffer is no value that a spec function can name, so `from` promises
    /// nothing here; `from_text` states what it returns.
    open spec fn obeys_from_spec() -> bool {
        false
    }

    open spec fn from_spec(s: &str) -> SharedStr {
        arbitrary()
    }
}


impl SharedStr {
    /// Whether this text holds exactly the characters of `s`.
    pub fn eq_str(&self, s: &str) -> (r: bool)
        ensures
            r == (self@ == s@),
    {
        let other = SharedStr::from_text(s);
        self.same_text(&other)
    }

    /// The text up to its first white space, on the same buffer.
    pub fn first_word(&self) -> (r: SharedStr)
        ensures
            r@ == self@.subrange(0, token_end(self@, 0)),
            r.buffer() == self.buffer(),
    {
        let n = self.len();
        let mut k: usize = 0;
        while k < n
            invariant
                n == self@.len(),
                k <= n,
                token_end(self@, k as int) == token_end(self@, 0),
            ensures
                token_end(self@, 0) == k,
            decreases n - k,
        {
            if char_is_whitespace(self.char_at(k)) {
                break;
            }
            k = k + 1;
        }
        self.window(0, k)
    }
}



/// Slicing a text made from `t` gives the characters `t[start..end]`, as the window at
/// `start` onto the very buffer that the text was made with.
pub proof fn law_slice_of_text(
    t: Seq<char>,
    start: int,
    end: int,
    whole: SharedStr,
    part: SharedStr,
)
    requires
        0 <= start <= end <= t.len(),
        whole@ == t,
        whole.buffer() == t,
        whole.offset() == 0,
        part@ == whole@.subrange(start, end),
        part.buffer() == whole.buffer(),
        part.offset() == whole.offset() + start,
        part@ == part.buffer().subrange(part.offset() as int, (part.offset() + part@.len()) as int),
    ensures
        part@ == t.subrange(start, end),
        part.buffer() == whole.buffer(),
        part.offset() == start,
        part.buffer().subrange(start, start + part@.len()) == t.subrange(start, end),
{
}

/// Two texts made from the same characters are equal, whatever buffers hold them.
pub proof fn law_equal_by_text(t: Seq<char>, a: SharedStr, b: SharedStr)
    requires
        a@ == t,
        b@ == t,
    ensures
        a.eq_spec(&b),
        b.eq_spec(&a),
{
}


/// How `a` orders against `b`, character by character, a prefix first.
pub open spec fn text_cmp(a: Seq<char>, b: Seq<char>) -> core::cmp::Ordering
    decreases a.len(),
{
    if a.len() == 0 && b.len() == 0 {
        core::cmp::Ordering::Equal
    } else if a.len() == 0 {
        core::cmp::Ordering::Less
    } else if b.len() == 0 {
        core::cmp::Ordering::Greater
    } else if (a[0] as u32) < (b[0] as u32) {
        core::cmp::Ordering::Less
    } else if (a[0] as u32) > (b[0] as u32) {
        core::cmp::Ordering::Greater
    } else {
        text_cmp(a.drop_first(), b.drop_first())
    }
}

impl SharedStr {
    /// How this text orders against `other`, by their characters.
    pub fn cmp_text(&self, other: &SharedStr) -> (r: core::cmp::Ordering)
        ensures
            r == text_cmp(self@, other@),
    {
        let n = self.len();
        let m = other.len();
        let mut i: usize = 0;
        assert(self@.subrange(0, n as int) =~= self@);
        assert(other@.subrange(0, m as int) =~= other@);
        while i < n && i < m
            invariant
                n == self@.len(),
                m == other@.len(),
                i <= n,
                i <= m,
                text_cmp(self@.subrange(i as int, n as int), other@.subrange(i as int, m as int))
                    == text_cmp(self@, other@),
            decreases n - i,
        {
            let a = self.char_at(i);
            let b = other.char_at(i);
            proof {
                let x = self@.subrange(i as int, n as int);
                let y = other@.subrange(i as int, m as int);
                assert(x.drop_first() =~= self@.subrange(i + 1, n as int));
                assert(y.drop_first() =~= other@.subrange(i + 1, m as int));
                assert(x[0] == a && y[0] == b);
            }
            if (a as u32) < (b as u32) {
                return core::cmp::Ordering::Less;
            }
            if (a as u32) > (b as u32) {
                return core::cmp::Ordering::Greater;
            }
            i = i + 1;
        }
        if i == n && i == m {
            core::cmp::Ordering::Equal
        } else if i == n {
            core::cmp::Ordering::Less
        } else {
            core::cmp::Ordering::Greater
        }
    }
}

impl PartialOrd for SharedStr {
    /// Texts order by their characters, whatever buffers they sit in.
    fn partial_cmp(&self, other: &SharedStr) -> (r: Option<core::cmp::Ordering>) {
        Some(self.cmp_text(other))
    }
}

impl vstd::std_specs::cmp::PartialOrdSpecImpl for SharedStr {
    open spec fn obeys_partial_cmp_spec() -> bool {
        true
    }

    open spec fn partial_cmp_spec(&self, other: &SharedStr) -> Option<core::cmp::Ordering> {
        Some(text_cmp(self@, other@))
    }
}

impl core::hash::Hash for SharedStr {
    /// Relies on `Hash` for `[char]`: hashes the characters of the text alone, so equal
    /// texts in different buffers hash alike.
    #[verifier::external_body]
    fn hash<H: core::hash::Hasher>(&self, state: &mut H) {
        self.buf[self.start..][..self.len].hash(state)
    }
}

/// How many bytes UTF-8 takes for `c`: one, two, three or four by code point range.
pub open spec fn char_utf8_len(c: char) -> nat {
    let u = c as u32;
    if u < 0x80 {
        1
    } else if u < 0x800 {
        2
    } else if u < 0x10000 {
        3
    } else {
        4
    }
}

/// How many bytes UTF-8 takes for `s`.
pub open spec fn utf8_len(s: Seq<char>) -> nat
    decreases s.len(),
{
    if s.len() == 0 {
        0
    } else {
        utf8_len(s.drop_last()) + char_utf8_len(s.last())
    }
}

proof fn lemma_utf8_len_prefix(s: Seq<char>, i: int, j: int)
    requires
        0 <= i <= j <= s.len(),
    ensures
        utf8_len(s.subrange(0, i)) <= utf8_len(s.subrange(0, j)),
    decreases j - i,
{
    if i < j {
        lemma_utf8_len_prefix(s, i, j - 1);
        assert(s.subrange(0, j).drop_last() =~= s.subrange(0, j - 1));
    }
}

/// The UTF-8 length of `c`.
fn char_utf8_width(c: char) -> (r: usize)
    ensures
        r == char_utf8_len(c),
{
    let u = c as u32;
    if u < 0x80 {
        1
    } else if u < 0x800 {
        2
    } else if u < 0x10000 {
        3
    } else {
        4
    }
}

impl SharedStr {
    /// Whether the text takes more than `limit` bytes in UTF-8.
    pub fn utf8_len_exceeds(&self, limit: usize) -> (r: bool)
        ensures
            r == (utf8_len(self@) > limit),
    {
        let n = self.len();
        let mut total: usize = 0;
        let mut i: usize = 0;
        assert(self@.subrange(0, 0) =~= Seq::<char>::empty());
        while i < n
            invariant
                n == self@.len(),
                i <= n,
                total == utf8_len(self@.subrange(0, i as int)),
                total <= limit,
            decreases n - i,
        {
            let w = char_utf8_width(self.char_at(i));
            proof {
                assert(self@.subrange(0, i + 1).drop_last() =~= self@.subrange(0, i as int));
            }
            if w > limit - total {
                proof {
                    lemma_utf8_len_prefix(self@, i + 1, n as int);
                    assert(self@.subrange(0, n as int) =~= self@);
                }
                return true;
            }
            total = total + w;
            i = i + 1;
        }
        assert(self@.subrange(0, n as int) =~= self@);
        false
    }
}

} // verus!
