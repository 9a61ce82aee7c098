use vstd::prelude::*;

verus! {

broadcast use vstd::string::group_string_axioms;

/// How many bytes a character takes in UTF-8.
pub open spec fn utf8_len(c: char) -> int {
    if (c as u32) < 0x80 {
        1
    } else if (c as u32) < 0x800 {
        2
    } else if (c as u32) < 0x10000 {
        3
    } else {
        4
    }
}

/// A character that can stand in the nesting prefix of a line, the part
/// that quotes and lists strip before their content: spaces, quote marks
/// `>`, list bullets and the characters of list numbers.
pub open spec fn is_nesting_char(c: char) -> bool {
    c == ' ' || c == '>' || c == '-' || c == '+' || c == '*' || c == '.' || (48 <= (c as u32)
        && (c as u32) <= 57) || c == 'a' || c == 'A' || c == 'i' || c == 'I'
}

/// A character that can end a list marker: a bullet, a digit or a dot.
pub open spec fn is_marker_end(c: char) -> bool {
    c == '-' || c == '+' || c == '*' || c == '.' || (48 <= (c as u32) && (c as u32) <= 57)
}

/// Where the line holding position `i` of `t` begins.
pub open spec fn line_start(t: Seq<char>, i: int) -> int
    decreases i,
{
    if i <= 0 {
        0
    } else if t[i - 1] == '\n' {
        i
    } else {
        line_start(t, i - 1)
    }
}

/// Where the line holding position `i` of `t` ends: its `'\n'`, or the end
/// of the text.
pub open spec fn line_end(t: Seq<char>, i: int) -> int
    decreases t.len() - i,
{
    if i >= t.len() || i < 0 {
        t.len() as int
    } else if t[i] == '\n' {
        i
    } else {
        line_end(t, i + 1)
    }
}

/// The first position from `q` on that holds no nesting character (a line's
/// `'\n'` is none).
pub open spec fn nest_end(t: Seq<char>, q: int) -> int
    decreases t.len() - q,
{
    if q < 0 || q >= t.len() || !is_nesting_char(t[q]) {
        q
    } else {
        nest_end(t, q + 1)
    }
}

/// Position `p` of `t` is the space that ends a line made only of nesting
/// characters and closed by a list marker (carriage returns aside): a list
/// item whose own line holds nothing.
pub open spec fn empty_list_item_at(t: Seq<char>, p: int) -> bool {
    &&& 0 <= p < t.len()
    &&& t[p] == ' '
    &&& forall|k: int| p < k < line_end(t, p) ==> t[k] == '\r'
    &&& line_start(t, p) <= p - 1
    &&& is_marker_end(t[p - 1])
    &&& forall|k: int| line_start(t, p) <= k <= p ==> is_nesting_char(#[trigger] t[k])
}

/// The line that begins at `q` can add nothing to a list item above it:
/// there is no such line, it is blank (nesting characters, then the end of
/// the line or a carriage return), or it opens a list item of its own.
pub open spec fn adds_nothing_to_item(t: Seq<char>, q: int) -> bool {
    let r = nest_end(t, q);
    ||| q >= t.len()
    ||| r >= t.len()
    ||| t[r] == '\n'
    ||| t[r] == '\r'
    ||| exists|k: int| q <= k && k + 1 < r && #[trigger] is_marker_end(t[k]) && t[k + 1] == ' '
}

/// An empty list item at `p` that nothing after it fills: the renderer
/// then indexes the item's empty list of blocks.
pub open spec fn unfilled_list_item_at(t: Seq<char>, p: int) -> bool {
    empty_list_item_at(t, p) && adds_nothing_to_item(t, line_end(t, p) + 1)
}

/// Three backticks begin at position `i` of `t`.
pub open spec fn fence_at(t: Seq<char>, i: int) -> bool {
    0 <= i && i + 2 < t.len() && t[i] == '`' && t[i + 1] == '`' && t[i + 2] == '`'
}

/// Byte 3 of the text that begins at position `c` falls on a character
/// boundary.
pub open spec fn third_byte_on_boundary(t: Seq<char>, c: int) -> bool {
    ||| utf8_len(t[c]) == 3
    ||| (c + 1 < t.len() && utf8_len(t[c]) + utf8_len(t[c + 1]) == 3)
    ||| (c + 2 < t.len() && utf8_len(t[c]) + utf8_len(t[c + 1]) + utf8_len(t[c + 2]) == 3)
}

/// The rest of a line from position `c`, reached by stripping nesting
/// characters, holds three backticks, does not begin with a tab, and has
/// byte 3 inside a character: the renderer cuts it there to read a code
/// block's language.
pub open spec fn cut_fence_at(t: Seq<char>, c: int) -> bool {
    &&& 0 <= c < t.len()
    &&& forall|k: int| line_start(t, c) <= k < c ==> is_nesting_char(#[trigger] t[k])
    &&& t[c] != '\t'
    &&& exists|i: int| c <= i && i + 2 < line_end(t, c) && #[trigger] fence_at(t, i)
    &&& !third_byte_on_boundary(t, c)
}

/// Markdown text clear of the renderer's panics that its source shows: no
/// list item is left empty, and no line, from any point its nesting prefix
/// can be stripped to, has a code fence cut inside a character. (Each
/// clause takes in a little more than the panicking texts themselves.)
pub open spec fn markdown_renders(t: Seq<char>) -> bool {
    &&& forall|p: int| 0 <= p < t.len() ==> !#[trigger] unfilled_list_item_at(t, p)
    &&& forall|c: int| 0 <= c < t.len() ==> !#[trigger] cut_fence_at(t, c)
}

/// The characters of `s`.
fn chars_of(s: &str) -> (r: Vec<char>)
    ensures
        r@ == s@,
{
    let mut v: Vec<char> = Vec::new();
    for c in it: s.chars()
        invariant
            it.seq() == s@,
            v@ == s@.take(it.index()),
    {
        v.push(c);
        assert(s@.take(it.index() + 1) =~= v@);
    }
    assert(v@ =~= s@);
    v
}

fn nesting(c: char) -> (r: bool)
    ensures
        r == is_nesting_char(c),
{
    let u = c as u32;
    c == ' ' || c == '>' || c == '-' || c == '+' || c == '*' || c == '.' || (48 <= u && u <= 57)
        || c == 'a' || c == 'A' || c == 'i' || c == 'I'
}

fn marker_end(c: char) -> (r: bool)
    ensures
        r == is_marker_end(c),
{
    let u = c as u32;
    c == '-' || c == '+' || c == '*' || c == '.' || (48 <= u && u <= 57)
}

/// Within one line `[s, e)`: where it begins and ends, for every position.
proof fn lemma_line_bounds(t: Seq<char>, s: int, e: int)
    requires
        0 <= s <= e <= t.len(),
        s == 0 || t[s - 1] == '\n',
        forall|k: int| s <= k < e ==> t[k] != '\n',
        e == t.len() || t[e] == '\n',
    ensures
        forall|k: int| s <= k <= e ==> line_start(t, k) == s,
        forall|k: int| s <= k <= e ==> line_end(t, k) == e,
{
    assert forall|k: int| s <= k <= e implies line_start(t, k) == s by {
        lemma_line_start_from(t, s, k);
    }
    assert forall|k: int| s <= k <= e implies line_end(t, k) == e by {
        lemma_line_end_from(t, k, e);
    }
}

proof fn lemma_line_start_from(t: Seq<char>, s: int, k: int)
    requires
        0 <= s <= k <= t.len(),
        s == 0 || t[s - 1] == '\n',
        forall|j: int| s <= j < k ==> t[j] != '\n',
    ensures
        line_start(t, k) == s,
    decreases k - s,
{
    if k > s {
        lemma_line_start_from(t, s, k - 1);
    }
}

proof fn lemma_line_end_from(t: Seq<char>, k: int, e: int)
    requires
        0 <= k <= e <= t.len(),
        forall|j: int| k <= j < e ==> t[j] != '\n',
        e == t.len() || t[e] == '\n',
    ensures
        line_end(t, k) == e,
    decreases e - k,
{
    if k < e {
        lemma_line_end_from(t, k + 1, e);
    }
}

/// Where the line that begins at `s` ends.
fn find_line_end(t: &Vec<char>, s: usize) -> (e: usize)
    requires
        s <= t@.len(),
    ensures
        s <= e <= t@.len(),
        forall|k: int| s <= k < e ==> t@[k] != '\n',
        e == t@.len() || t@[e as int] == '\n',
{
    let mut e = s;
    while e < t.len() && t[e] != '\n'
        invariant
            s <= e <= t@.len(),
            forall|k: int| s <= k < e ==> t@[k] != '\n',
        decreases t@.len() - e,
    {
        e = e + 1;
    }
    e
}

/// Are all of `t[lo..hi]` nesting characters?
fn all_nesting(t: &Vec<char>, lo: usize, hi: usize) -> (r: bool)
    requires
        lo <= hi <= t@.len(),
    ensures
        r == forall|k: int| lo <= k < hi ==> is_nesting_char(#[trigger] t@[k]),
{
    let mut k = lo;
    while k < hi
        invariant
            lo <= k <= hi <= t@.len(),
            forall|j: int| lo <= j < k ==> is_nesting_char(#[trigger] t@[j]),
        decreases hi - k,
    {
        if !nesting(t[k]) {
            return false;
        }
        k = k + 1;
    }
    true
}

/// Do three backticks begin somewhere in `[lo, hi)`?
fn has_fence(t: &Vec<char>, lo: usize, hi: usize) -> (r: bool)
    requires
        lo <= hi <= t@.len(),
    ensures
        r == exists|i: int| lo <= i < hi && #[trigger] fence_at(t@, i),
{
    let mut i = lo;
    while i < hi
        invariant
            lo <= i <= hi <= t@.len(),
            forall|j: int| lo <= j < i ==> !#[trigger] fence_at(t@, j),
        decreases hi - i,
    {
        if t.len() >= 3 && i < t.len() - 2 && t[i] == '`' && t[i + 1] == '`' && t[i + 2] == '`' {
            assert(fence_at(t@, i as int));
            return true;
        }
        i = i + 1;
    }
    false
}

fn utf8_width(c: char) -> (r: u32)
    ensures
        r == utf8_len(c),
{
    let u = c as u32;
    if u < 0x80 {
        1
    } else if u < 0x800 {
        2
    } else if u < 0x10000 {
        3
    } else {
        4
    }
}

/// Byte 3 of the text from `c` on falls on a character boundary.
fn third_byte_boundary(t: &Vec<char>, c: usize) -> (r: bool)
    requires
        c < t@.len(),
    ensures
        r == third_byte_on_boundary(t@, c as int),
{
    let w0 = utf8_width(t[c]);
    if w0 == 3 {
        return true;
    }
    if c < t.len() - 1 {
        let w1 = utf8_width(t[c + 1]);
        if w0 + w1 == 3 {
            return true;
        }
        if c < t.len() - 2 {
            let w2 = utf8_width(t[c + 2]);
            return w0 + w1 + w2 == 3;
        }
    }
    false
}

/// The first position from `q` on that holds no nesting character.
fn scan_nesting(t: &Vec<char>, q: usize) -> (r: usize)
    requires
        q <= t@.len(),
    ensures
        r == nest_end(t@, q as int),
        q <= r <= t@.len(),
        forall|k: int| q <= k < r ==> is_nesting_char(#[trigger] t@[k]),
        r < t@.len() ==> !is_nesting_char(t@[r as int]),
{
    let mut r = q;
    while r < t.len() && nesting(t[r])
        invariant
            q <= r <= t@.len(),
            nest_end(t@, q as int) == nest_end(t@, r as int),
            forall|k: int| q <= k < r ==> is_nesting_char(#[trigger] t@[k]),
        decreases t@.len() - r,
    {
        r = r + 1;
    }
    r
}

/// Does a list marker followed by a space stand in `[q, r)`?
fn has_marker_space(t: &Vec<char>, q: usize, r: usize) -> (b: bool)
    requires
        q <= r <= t@.len(),
    ensures
        b == exists|k: int| q <= k && k + 1 < r && #[trigger] is_marker_end(t@[k]) && t@[k + 1] == ' ',
{
    if r == 0 {
        return false;
    }
    let mut k = q;
    while k < r - 1
        invariant
            q <= k,
            r > 0,
            r <= t@.len(),
            forall|j: int| q <= j < k && j + 1 < r ==> !(#[trigger] is_marker_end(t@[j]) && t@[j + 1] == ' '),
        decreases r - k,
    {
        if marker_end(t[k]) && t[k + 1] == ' ' {
            return true;
        }
        k = k + 1;
    }
    false
}

/// Can the line that begins at `q` add nothing to a list item above it?
fn adds_nothing(t: &Vec<char>, q: usize) -> (b: bool)
    requires
        q <= t@.len() + 1,
    ensures
        b == adds_nothing_to_item(t@, q as int),
{
    if q >= t.len() {
        return true;
    }
    let r = scan_nesting(t, q);
    if r >= t.len() || t[r] == '\n' || t[r] == '\r' {
        return true;
    }
    has_marker_space(t, q, r)
}

/// Does `text` meet [`markdown_renders`], so that the markdown renderer
/// takes it without any of the panics its source shows?
pub fn markdown_renders_safely(text: &str) -> (r: bool)
    ensures
        r == markdown_renders(text@),
{
    let t = chars_of(text);
    let n = t.len();
    let mut s: usize = 0;
    while s < n
        invariant
            n == t@.len(),
            t@ == text@,
            s <= n,
            s == 0 || s == n || t@[s - 1] == '\n',
            forall|p: int| 0 <= p < s ==> !#[trigger] unfilled_list_item_at(t@, p),
            forall|c: int| 0 <= c < s ==> !#[trigger] cut_fence_at(t@, c),
        decreases n - s,
    {
        let e = find_line_end(&t, s);
        proof {
            lemma_line_bounds(t@, s as int, e as int);
        }
        // Empty list items: only the space before the line's closing
        // carriage returns can end one.
        let mut e2 = e;
        while e2 > s && t[e2 - 1] == '\r'
            invariant
                s <= e2 <= e <= n,
                n == t@.len(),
                forall|k: int| e2 <= k < e ==> t@[k] == '\r',
            decreases e2,
        {
            e2 = e2 - 1;
        }
        let empty_item = e2 - s >= 2 && t[e2 - 1] == ' ' && marker_end(t[e2 - 2]) && all_nesting(
            &t,
            s,
            e2,
        );
        let next = if e < n {
            e + 1
        } else {
            n
        };
        if empty_item && adds_nothing(&t, next) {
            proof {
                let p = e2 - 1;
                assert(empty_list_item_at(t@, p as int));
                assert(line_end(t@, p as int) == e);
                assert(unfilled_list_item_at(t@, p as int));
            }
            return false;
        }
        proof {
            assert forall|p: int| s <= p < e implies !#[trigger] unfilled_list_item_at(t@, p) by {
                if unfilled_list_item_at(t@, p) {
                    assert(line_end(t@, p) == e);
                    if p < e2 - 1 {
                        assert(t@[e2 - 1] == '\r');
                    } else if p >= e2 {
                        assert(t@[p] == '\r');
                    } else {
                        assert(forall|k: int| s <= k < e2 ==> is_nesting_char(#[trigger] t@[k]));
                    }
                }
            }
            if e < n {
                assert(!unfilled_list_item_at(t@, e as int));
            }
        }
        // Code fences: only the points the nesting prefix can be stripped
        // to need a look.
        let m = scan_nesting(&t, s);
        proof {
            if m > e {
                assert(is_nesting_char(t@[e as int]));
            }
        }
        let hi = if m < e && m + 1 < e {
            m + 1
        } else {
            e
        };
        let mut c = s;
        while c < hi
            invariant
                s <= c <= hi <= e <= n,
                n == t@.len(),
                t@ == text@,
                m == nest_end(t@, s as int),
                s <= m <= e,
                m < n ==> !is_nesting_char(t@[m as int]),
                hi == e || hi == m + 1,
                hi <= m + 1,
                forall|k: int| s <= k < m ==> is_nesting_char(#[trigger] t@[k]),
                forall|k: int| s <= k <= e ==> line_start(t@, k) == s,
                forall|k: int| s <= k <= e ==> line_end(t@, k) == e,
                forall|k: int| s <= k < e ==> t@[k] != '\n',
                e == n || t@[e as int] == '\n',
                forall|c2: int| s <= c2 < c ==> !#[trigger] cut_fence_at(t@, c2),
            decreases hi - c,
        {
            if t[c] != '\t' && has_fence(&t, c, e) && !third_byte_boundary(&t, c) {
                proof {
                    let i = choose|i: int| c <= i < e && #[trigger] fence_at(t@, i);
                    assert(t@[i + 1] != '\n' && t@[i + 2] != '\n');
                    assert(i + 2 < e);
                    assert forall|k: int| line_start(t@, c as int) <= k < c implies is_nesting_char(
                        #[trigger] t@[k],
                    ) by {
                        assert(k < m);
                    }
                    assert(cut_fence_at(t@, c as int));
                }
                return false;
            }
            proof {
                if cut_fence_at(t@, c as int) {
                    let i = choose|i: int| c <= i && i + 2 < line_end(t@, c as int) && #[trigger] fence_at(t@, i);
                    assert(c <= i < e);
                }
            }
            c = c + 1;
        }
        proof {
            assert forall|c2: int| s <= c2 <= e && c2 < n implies !#[trigger] cut_fence_at(t@, c2) by {
                if c2 >= hi && cut_fence_at(t@, c2) {
                    if c2 < e {
                        assert(m < c2);
                        assert(!is_nesting_char(t@[m as int]));
                    } else {
                        let i = choose|i: int| c2 <= i && i + 2 < line_end(t@, c2) && #[trigger] fence_at(t@, i);
                    }
                }
            }
        }
        if e < n {
            s = e + 1;
        } else {
            s = n;
        }
    }
    true
}

} // verus!
