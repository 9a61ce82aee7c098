use vstd::prelude::*;

verus! {

/// Index of the last `'.'` in `name`, if any.
pub open spec fn last_dot(name: Seq<char>) -> Option<int>
    decreases name.len(),
{
    if name.len() == 0 {
        None
    } else if name.last() == '.' {
        Some(name.len() - 1)
    } else {
        last_dot(name.drop_last())
    }
}

/// The two characters `..`, the parent-directory name.
pub open spec fn is_parent_name(name: Seq<char>) -> bool {
    name.len() == 2 && name[0] == '.' && name[1] == '.'
}

/// The extension of a file name: what follows its last `'.'`, unless the name
/// has no dot, its only dot is its first character, or it is `..`.
pub open spec fn spec_extension(name: Seq<char>) -> Option<Seq<char>> {
    if is_parent_name(name) {
        None
    } else {
        match last_dot(name) {
            None => None,
            Some(i) => if i == 0 {
                None
            } else {
                Some(name.skip(i + 1))
            },
        }
    }
}

/// The stem of a file name: what precedes its last `'.'` when the name has an
/// extension, and the whole name otherwise.
pub open spec fn spec_stem(name: Seq<char>) -> Seq<char> {
    match spec_extension(name) {
        None => name,
        Some(_) => name.take(last_dot(name)->0),
    }
}

proof fn lemma_last_dot_bounds(name: Seq<char>)
    ensures
        last_dot(name) matches Some(i) ==> 0 <= i < name.len() && name[i] == '.'
            && forall|j: int| i < j < name.len() ==> name[j] != '.',
        last_dot(name) is None ==> forall|j: int| 0 <= j < name.len() ==> name[j] != '.',
    decreases name.len(),
{
    if name.len() > 0 && name.last() != '.' {
        lemma_last_dot_bounds(name.drop_last());
        assert forall|j: int| 0 <= j < name.len() - 1 implies name.drop_last()[j] == name[j] by {}
    }
}

/// Finds the index of the last `'.'` in `name`.
fn find_last_dot(name: &str) -> (r: Option<usize>)
    ensures
        r matches Some(i) ==> last_dot(name@) == Some(i as int),
        r is None ==> last_dot(name@) is None,
{
    let n = name.unicode_len();
    let mut k: usize = n;
    assert(name@.take(n as int) =~= name@);
    while k > 0
        invariant
            k <= n,
            n == name@.len(),
            last_dot(name@) == last_dot(name@.take(k as int)),
        decreases k,
    {
        let c = name.get_char(k - 1);
        assert(name@.take(k as int).drop_last() =~= name@.take(k - 1));
        if c == '.' {
            return Some(k - 1);
        }
        k = k - 1;
    }
    assert(name@.take(0) =~= Seq::<char>::empty());
    None
}

/// Is `name` the two characters `..`?
fn parent_name(name: &str) -> (r: bool)
    ensures
        r == is_parent_name(name@),
{
    name.unicode_len() == 2 && name.get_char(0) == '.' && name.get_char(1) == '.'
}

/// The extension of a file name, as `Path::extension` gives it for a path
/// whose last component is the file name `name`. (A path ending in `..` has
/// no file name; this function, given `..`, finds no extension.)
pub fn file_extension(name: &str) -> (r: Option<String>)
    ensures
        r matches Some(e) ==> spec_extension(name@) == Some(e@),
        r is None ==> spec_extension(name@) is None,
{
    if parent_name(name) {
        return None;
    }
    match find_last_dot(name) {
        None => None,
        Some(i) => {
            if i == 0 {
                None
            } else {
                proof {
                    lemma_last_dot_bounds(name@);
                }
                let n = name.unicode_len();
                let ext = name.substring_char(i + 1, n);
                assert(ext@ =~= name@.skip(i + 1));
                Some(String::from_str(ext))
            }
        },
    }
}

/// The stem of a file name, as `Path::file_stem` gives it for a path whose
/// last component is the file name `name`. (A path ending in `..` has no
/// file name and so no stem; this function, given `..`, keeps it whole.)
pub fn file_stem(name: &str) -> (r: String)
    ensures
        r@ == spec_stem(name@),
{
    if parent_name(name) {
        return String::from_str(name);
    }
    match find_last_dot(name) {
        None => String::from_str(name),
        Some(i) => {
            if i == 0 {
                String::from_str(name)
            } else {
                proof {
                    lemma_last_dot_bounds(name@);
                }
                let stem = name.substring_char(0, i);
                assert(stem@ =~= name@.take(i as int));
                String::from_str(stem)
            }
        },
    }
}

/// A file name other than `..` with a `'.'` after its first character has
/// an extension, whatever its length: the characters after its last `'.'`,
/// and its stem is what comes before that `'.'`.
pub proof fn lemma_extension_after_last_dot(name: Seq<char>, i: int)
    requires
        0 < i < name.len(),
        name[i] == '.',
        forall|j: int| i < j < name.len() ==> name[j] != '.',
        !(name.len() == 2 && name[0] == '.' && name[1] == '.'),
    ensures
        spec_extension(name) == Some(name.skip(i + 1)),
        spec_stem(name) == name.take(i),
{
    lemma_last_dot_bounds(name);
    let k = last_dot(name)->0;
    assert(k == i) by {
        if k < i {
            assert(name[i] != '.');
        } else if k > i {
            assert(name[k] != '.');
        }
    }
}

/// A file name with no `'.'` after its first character has no extension,
/// and its stem is the whole name.
pub proof fn lemma_no_extension_without_inner_dot(name: Seq<char>)
    requires
        forall|j: int| 0 < j < name.len() ==> name[j] != '.',
    ensures
        spec_extension(name) is None,
        spec_stem(name) == name,
{
    lemma_last_dot_bounds(name);
}

/// Splitting a file name that has an extension loses nothing: its stem, a
/// `'.'` and its extension put back together give the name again.
pub proof fn lemma_stem_dot_extension(name: Seq<char>)
    requires
        spec_extension(name) is Some,
    ensures
        spec_stem(name) + seq!['.'] + spec_extension(name)->0 == name,
{
    lemma_last_dot_bounds(name);
    let i = last_dot(name)->0;
    assert(spec_stem(name) + seq!['.'] + spec_extension(name)->0 =~= name);
}

/// Neither the stem nor the extension of a file name holds a `'.'` after
/// the split point: the extension holds no `'.'` at all.
pub proof fn lemma_extension_has_no_dot(name: Seq<char>)
    requires
        spec_extension(name) is Some,
    ensures
        forall|j: int|
            0 <= j < (spec_extension(name)->0).len() ==> (spec_extension(name)->0)[j] != '.',
{
    lemma_last_dot_bounds(name);
}

/// Two markdown files of one directory never share a stem: names that both
/// have the extension `md` and the same stem are the same name.
pub proof fn lemma_markdown_names_have_distinct_stems(n1: Seq<char>, n2: Seq<char>)
    requires
        spec_extension(n1) == Some("md"@),
        spec_extension(n2) == Some("md"@),
        spec_stem(n1) == spec_stem(n2),
    ensures
        n1 == n2,
{
    lemma_stem_dot_extension(n1);
    lemma_stem_dot_extension(n2);
}

} // verus!
