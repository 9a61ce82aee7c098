use vstd::prelude::*;

verus! {

/// Does `s` hold `pat` at position `i`?
pub open spec fn occurs_at(s: Seq<char>, pat: Seq<char>, i: int) -> bool {
    0 <= i && i + pat.len() <= s.len() && s.subrange(i, i + pat.len()) == pat
}

/// `s` with every occurrence of the non-empty `pat` replaced by `rep`,
/// occurrences taken from the left and never overlapping.
pub open spec fn replaced(s: Seq<char>, pat: Seq<char>, rep: Seq<char>) -> Seq<char>
    recommends
        pat.len() > 0,
    decreases s.len(),
{
    if s.len() == 0 {
        Seq::empty()
    } else if pat.len() > 0 && occurs_at(s, pat, 0) {
        rep + replaced(s.skip(pat.len() as int), pat, rep)
    } else {
        seq![s[0]] + replaced(s.skip(1), pat, rep)
    }
}

/// Does `s` hold `pat` at position `i`? (`i + pat.len() <= s.len()`.)
fn matches_at(s: &str, n: usize, pat: &str, m: usize, i: usize) -> (r: bool)
    requires
        n == s@.len(),
        m == pat@.len(),
        i + m <= n,
    ensures
        r == occurs_at(s@, pat@, i as int),
{
    let mut j: usize = 0;
    while j < m
        invariant
            j <= m,
            n == s@.len(),
            m == pat@.len(),
            i + m <= n,
            forall|t: int| 0 <= t < j ==> s@[i + t] == pat@[t],
        decreases m - j,
    {
        if s.get_char(i + j) != pat.get_char(j) {
            assert(s@.subrange(i as int, i + m)[j as int] != pat@[j as int]);
            return false;
        }
        j = j + 1;
    }
    assert(s@.subrange(i as int, i + m) =~= pat@);
    true
}

/// Replaces every occurrence of `pat` in `s` by `rep`, as `str::replace`
/// does for a non-empty pattern.
pub fn replace_all(s: &str, pat: &str, rep: &str) -> (r: String)
    requires
        pat@.len() > 0,
    ensures
        r@ == replaced(s@, pat@, rep@),
{
    let n = s.unicode_len();
    let m = pat.unicode_len();
    let mut out = String::new();
    let mut i: usize = 0;
    assert(s@.skip(0) =~= s@);
    while i < n
        invariant
            i <= n,
            n == s@.len(),
            m == pat@.len(),
            m > 0,
            replaced(s@, pat@, rep@) == out@ + replaced(s@.skip(i as int), pat@, rep@),
        decreases n - i,
    {
        let ghost rest = s@.skip(i as int);
        if m <= n - i && matches_at(s, n, pat, m, i) {
            assert(rest.subrange(0, m as int) =~= s@.subrange(i as int, i + m));
            assert(rest.skip(m as int) =~= s@.skip(i + m));
            out.append(rep);
            i = i + m;
        } else {
            assert(!occurs_at(rest, pat@, 0)) by {
                if m <= n - i {
                    assert(rest.subrange(0, m as int) =~= s@.subrange(i as int, i + m));
                }
            }
            let c = s.substring_char(i, i + 1);
            assert(c@ =~= seq![rest[0]]);
            assert(rest.skip(1) =~= s@.skip(i + 1));
            out.append(c);
            i = i + 1;
        }
        assert(replaced(s@, pat@, rep@) =~= out@ + replaced(s@.skip(i as int), pat@, rep@));
    }
    assert(s@.skip(n as int) =~= Seq::<char>::empty());
    assert(out@ + Seq::<char>::empty() =~= out@);
    out
}

/// Text without any occurrence of the pattern is left as it is.
pub proof fn lemma_replaced_absent(s: Seq<char>, pat: Seq<char>, rep: Seq<char>)
    requires
        pat.len() > 0,
        forall|i: int| !#[trigger] occurs_at(s, pat, i),
    ensures
        replaced(s, pat, rep) == s,
    decreases s.len(),
{
    if s.len() > 0 {
        assert(!occurs_at(s, pat, 0));
        assert forall|i: int| !#[trigger] occurs_at(s.skip(1), pat, i) by {
            if occurs_at(s.skip(1), pat, i) {
                assert(s.skip(1).subrange(i, i + pat.len()) =~= s.subrange(i + 1, i + 1 + pat.len()));
                assert(occurs_at(s, pat, i + 1));
            }
        }
        lemma_replaced_absent(s.skip(1), pat, rep);
        assert(seq![s[0]] + s.skip(1) =~= s);
    }
}

/// In a path that ends with `.md` and holds `.md` nowhere else, replacing
/// `.md` replaces just that ending.
pub proof fn lemma_replace_md_ending(a: Seq<char>, rep: Seq<char>)
    requires
        forall|i: int| !#[trigger] occurs_at(a, ".md"@, i),
    ensures
        replaced(a + ".md"@, ".md"@, rep) == a + rep,
    decreases a.len(),
{
    reveal_strlit(".md");
    let pat = ".md"@;
    let s = a + pat;
    if a.len() == 0 {
        assert(s =~= pat);
        assert(occurs_at(s, pat, 0)) by {
            assert(s.subrange(0, 3) =~= pat);
        }
        assert(s.skip(3) =~= Seq::<char>::empty());
        assert(replaced(Seq::<char>::empty(), pat, rep) == Seq::<char>::empty());
        assert(replaced(s, pat, rep) == rep + replaced(s.skip(3), pat, rep));
        assert(rep + Seq::<char>::empty() =~= rep);
        assert(a + rep =~= rep);
    } else {
        assert(!occurs_at(s, pat, 0)) by {
            if occurs_at(s, pat, 0) {
                if a.len() >= 3 {
                    assert(a.subrange(0, 3) =~= s.subrange(0, 3));
                    assert(occurs_at(a, pat, 0));
                } else {
                    assert(s[a.len() as int] == '.');
                    assert(s.subrange(0, 3)[a.len() as int] == pat[a.len() as int]);
                }
            }
        }
        let a1 = a.skip(1);
        assert forall|i: int| !#[trigger] occurs_at(a1, pat, i) by {
            if occurs_at(a1, pat, i) {
                assert(a1.subrange(i, i + 3) =~= a.subrange(i + 1, i + 4));
                assert(occurs_at(a, pat, i + 1));
            }
        }
        lemma_replace_md_ending(a1, rep);
        assert(s.skip(1) =~= a1 + pat);
        assert(s[0] == a[0]);
        assert(replaced(s, pat, rep) == seq![s[0]] + replaced(s.skip(1), pat, rep));
        assert(seq![a[0]] + (a1 + rep) =~= a + rep);
    }
}

/// The directory that holds the blog's pages, with its trailing slash.
pub open spec fn blog_dir() -> Seq<char> {
    "/home/anon/Documents/gatewaynode_notes/website/blog/"@
}

/// The file of the blog post titled `title`.
pub fn blog_post_path(title: &str) -> (r: String)
    ensures
        r@ == blog_dir() + title@ + ".md"@,
{
    let mut path = String::from_str("/home/anon/Documents/gatewaynode_notes/website/blog/");
    path.append(title);
    path.append(".md");
    path
}

/// The page shown for a path that no route serves.
pub fn not_found_message(uri: &str) -> (r: String)
    ensures
        r@ == "<p>Sorry, but '"@ + uri@ + "' is not a valid path!</p>"@,
{
    let mut msg = String::from_str("<p>Sorry, but '");
    msg.append(uri);
    msg.append("' is not a valid path!</p>");
    msg
}

/// What the site answers for `robots.txt`.
pub fn robots_txt() -> (r: String)
    ensures
        r@ == "User-agents: *\nAllow: *\n\nSitemap: https://gatewaynode.com/sitemap.xml"@,
{
    String::from_str("User-agents: *\nAllow: *\n\nSitemap: https://gatewaynode.com/sitemap.xml")
}

} // verus!
