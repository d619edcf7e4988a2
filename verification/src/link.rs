//! File names: which files are taken in, and the link that the name of a
//! file gives.
//!
//! A document arrives in a file named after where it can be fetched again:
//! an identifier, an underscore, a key, and the extension `pdf`. The link of
//! its record is built from the identifier and the key. A name is the last
//! part of a path, without any directory.
use vstd::prelude::*;
use crate::text::{to_chars, to_string};

verus! {

/// The extension of the files that are taken in.
pub const DOCUMENT_EXTENSION: &'static str = "pdf";

/// What stands in a link before the identifier.
pub const LINK_HEAD: &'static str = "https://sig.unb.br/sigrh/downloadArquivo?idArquivo=";

/// What stands in a link between the identifier and the key.
pub const LINK_JOINT: &'static str = "&key=";

/// The index of the first `c` in `s`, or -1 where `s` holds no `c`.
pub open spec fn first_index_of(s: Seq<char>, c: char) -> int
    decreases s.len(),
{
    if s.len() == 0 {
        -1
    } else {
        let before = first_index_of(s.drop_last(), c);
        if before >= 0 {
            before
        } else if s.last() == c {
            s.len() - 1
        } else {
            -1
        }
    }
}

/// The index of the last `c` in `s`, or -1 where `s` holds no `c`.
pub open spec fn last_index_of(s: Seq<char>, c: char) -> int
    decreases s.len(),
{
    if s.len() == 0 {
        -1
    } else if s.last() == c {
        s.len() - 1
    } else {
        last_index_of(s.drop_last(), c)
    }
}

/// The place of the dot that parts the stem of a file name from its
/// extension, as `std::path::Path` sees it: the last dot of the name, unless
/// that dot opens the name or the name is `..`. Where the name has no such
/// dot the result is -1.
pub open spec fn extension_dot(name: Seq<char>) -> int {
    let dot = last_index_of(name, '.');
    if dot <= 0 || name == seq!['.', '.'] {
        -1
    } else {
        dot
    }
}

/// The name without its extension and the dot before it.
pub open spec fn file_stem(name: Seq<char>) -> Seq<char> {
    if extension_dot(name) < 0 {
        name
    } else {
        name.take(extension_dot(name))
    }
}

/// The extension of the name: what follows its last dot, where a dot parts
/// an extension from the stem.
pub open spec fn file_extension(name: Seq<char>) -> Option<Seq<char>> {
    if extension_dot(name) < 0 {
        None
    } else {
        Some(name.skip(extension_dot(name) + 1))
    }
}

/// The file is one to take in: its extension is `pdf`, in small letters.
pub open spec fn is_intake_name(name: Seq<char>) -> bool {
    file_extension(name) == Some(DOCUMENT_EXTENSION@)
}

/// The identifier and the key in the name of a file: what stands before the
/// first underscore of the stem and what stands after it. A stem without an
/// underscore gives neither.
pub open spec fn link_parts(name: Seq<char>) -> Option<(Seq<char>, Seq<char>)> {
    let stem = file_stem(name);
    let cut = first_index_of(stem, '_');
    if cut < 0 {
        None
    } else {
        Some((stem.take(cut), stem.skip(cut + 1)))
    }
}

/// The link that an identifier and a key give.
pub open spec fn link_to(id: Seq<char>, key: Seq<char>) -> Seq<char> {
    LINK_HEAD@ + id + LINK_JOINT@ + key
}

/// The link that the name of a file gives, where the name holds an
/// identifier and a key.
pub open spec fn link_of(name: Seq<char>) -> Option<Seq<char>> {
    match link_parts(name) {
        Some((id, key)) => Some(link_to(id, key)),
        None => None,
    }
}

/// The first index found by `first_index_of` holds `c`, and no index before
/// it does; -1 means that no index does.
pub proof fn lemma_first_index_of(s: Seq<char>, c: char)
    ensures
        -1 <= first_index_of(s, c) < s.len(),
        first_index_of(s, c) >= 0 ==> s[first_index_of(s, c)] == c,
        forall|j: int| 0 <= j < s.len() && (j < first_index_of(s, c) || first_index_of(s, c) < 0)
            ==> #[trigger] s[j] != c,
    decreases s.len(),
{
    if s.len() > 0 {
        lemma_first_index_of(s.drop_last(), c);
        let first = first_index_of(s, c);
        assert forall|j: int| 0 <= j < s.len() && (j < first || first < 0) implies #[trigger] s[j]
            != c by {
            if j < s.len() - 1 {
                assert(s.drop_last()[j] == s[j]);
            }
        }
    }
}

/// The last index found by `last_index_of` holds `c`, and no index after it
/// does; -1 means that no index does.
pub proof fn lemma_last_index_of(s: Seq<char>, c: char)
    ensures
        -1 <= last_index_of(s, c) < s.len(),
        last_index_of(s, c) >= 0 ==> s[last_index_of(s, c)] == c,
        forall|j: int| last_index_of(s, c) < j < s.len() ==> #[trigger] s[j] != c,
    decreases s.len(),
{
    if s.len() > 0 {
        lemma_last_index_of(s.drop_last(), c);
        if s.last() != c {
            assert forall|j: int| last_index_of(s, c) < j < s.len() implies #[trigger] s[j] != c by {
                if j < s.len() - 1 {
                    assert(s.drop_last()[j] == s[j]);
                }
            }
        }
    }
}

/// Finds the first `c` in `s`.
pub fn find_first(s: &[char], c: char) -> (r: Option<usize>)
    ensures
        match r {
            Some(i) => first_index_of(s@, c) == i as int,
            None => first_index_of(s@, c) == -1,
        },
{
    let mut i: usize = 0;
    while i < s.len()
        invariant
            i <= s.len(),
            first_index_of(s@.take(i as int), c) == -1,
        decreases s.len() - i,
    {
        proof {
            assert(s@.take(i + 1).drop_last() == s@.take(i as int));
        }
        if s[i] == c {
            proof {
                lemma_first_index_prefix(s@, c, i + 1);
            }
            return Some(i);
        }
        i += 1;
    }
    proof {
        assert(s@.take(s@.len() as int) == s@);
    }
    None
}

/// The first `c` of the beginning of a sequence is the first `c` of the
/// sequence.
proof fn lemma_first_index_prefix(s: Seq<char>, c: char, n: int)
    requires
        0 <= n <= s.len(),
        first_index_of(s.take(n), c) >= 0,
    ensures
        first_index_of(s, c) == first_index_of(s.take(n), c),
    decreases s.len() - n,
{
    if n < s.len() {
        assert(s.take(n + 1).drop_last() == s.take(n));
        lemma_first_index_prefix(s, c, n + 1);
    } else {
        assert(s.take(n) == s);
    }
}

/// Finds the last `c` in `s`.
pub fn find_last(s: &[char], c: char) -> (r: Option<usize>)
    ensures
        match r {
            Some(i) => last_index_of(s@, c) == i as int,
            None => last_index_of(s@, c) == -1,
        },
{
    let mut i: usize = s.len();
    proof {
        assert(s@.take(i as int) == s@);
    }
    while i > 0
        invariant
            i <= s.len(),
            last_index_of(s@, c) == last_index_of(s@.take(i as int), c),
        decreases i,
    {
        proof {
            assert(s@.take(i as int).drop_last() == s@.take(i - 1));
        }
        if s[i - 1] == c {
            return Some(i - 1);
        }
        i -= 1;
    }
    None
}

/// Finds the dot before the extension of a file name.
pub fn find_extension_dot(name: &[char]) -> (r: Option<usize>)
    ensures
        match r {
            Some(i) => extension_dot(name@) == i as int && 0 < i < name@.len(),
            None => extension_dot(name@) == -1,
        },
{
    if name.len() == 2 && name[0] == '.' && name[1] == '.' {
        proof {
            assert(name@ =~= seq!['.', '.']);
        }
        return None;
    }
    proof {
        lemma_last_index_of(name@, '.');
        if name@ == seq!['.', '.'] {
            assert(name@.len() == 2 && name@[0] == '.' && name@[1] == '.');
        }
    }
    match find_last(name, '.') {
        Some(i) => if i == 0 {
            None
        } else {
            Some(i)
        },
        None => None,
    }
}

/// Copies the characters of `s` from index `from` up to index `to`.
fn slice_chars(s: &[char], from: usize, to: usize) -> (part: Vec<char>)
    requires
        from <= to <= s.len(),
    ensures
        part@ == s@.subrange(from as int, to as int),
{
    let mut part: Vec<char> = Vec::new();
    let mut i: usize = from;
    while i < to
        invariant
            from <= i <= to,
            to <= s.len(),
            part@ == s@.subrange(from as int, i as int),
        decreases to - i,
    {
        part.push(s[i]);
        proof {
            assert(s@.subrange(from as int, i + 1) == s@.subrange(from as int, i as int).push(
                s@[i as int],
            ));
        }
        i += 1;
    }
    part
}

/// Tests whether the file named `file_name` is one to take in.
pub fn is_intake_file(file_name: &str) -> (r: bool)
    ensures
        r == is_intake_name(file_name@),
{
    let name = to_chars(file_name);
    match find_extension_dot(name.as_slice()) {
        Some(dot) => {
            assert(dot < name.len());
            let extension = slice_chars(name.as_slice(), dot + 1, name.len());
            let wanted = to_chars(DOCUMENT_EXTENSION);
            let same = chars_equal(extension.as_slice(), wanted.as_slice());
            proof {
                assert(name@.skip(dot + 1) == name@.subrange(dot + 1, name@.len() as int));
            }
            same
        },
        None => false,
    }
}

/// Tests whether two sequences of characters are the same.
pub fn chars_equal(a: &[char], b: &[char]) -> (r: bool)
    ensures
        r == (a@ == b@),
{
    if a.len() != b.len() {
        return false;
    }
    let mut i: usize = 0;
    while i < a.len()
        invariant
            a.len() == b.len(),
            i <= a.len(),
            forall|j: int| 0 <= j < i ==> a@[j] == b@[j],
        decreases a.len() - i,
    {
        if a[i] != b[i] {
            return false;
        }
        i += 1;
    }
    proof {
        assert(a@ =~= b@);
    }
    true
}

/// The name of a file does not hold an identifier and a key: its stem has no
/// underscore.
#[derive(Clone, Copy, Debug, PartialEq, Eq)]
pub struct MalformedFilename;

/// Builds the link of the document in the file named `file_name`, or says
/// that the name is malformed.
pub fn get_link(file_name: &str) -> (r: Result<String, MalformedFilename>)
    ensures
        match r {
            Ok(link) => link_of(file_name@) == Some(link@),
            Err(_) => link_of(file_name@).is_none(),
        },
{
    let name = to_chars(file_name);
    let stem = match find_extension_dot(name.as_slice()) {
        Some(dot) => {
            proof {
                assert(name@.take(dot as int) == name@.subrange(0, dot as int));
            }
            slice_chars(name.as_slice(), 0, dot)
        },
        None => name,
    };
    match find_first(stem.as_slice(), '_') {
        Some(cut) => {
            proof {
                lemma_first_index_of(stem@, '_');
                assert(stem@.take(cut as int) == stem@.subrange(0, cut as int));
                assert(stem@.skip(cut + 1) == stem@.subrange(cut + 1, stem@.len() as int));
            }
            let id = slice_chars(stem.as_slice(), 0, cut);
            let key = slice_chars(stem.as_slice(), cut + 1, stem.len());
            let mut link = String::from_str(LINK_HEAD);
            link.append(to_string(id.as_slice()).as_str());
            link.append(LINK_JOINT);
            link.append(to_string(key.as_slice()).as_str());
            Ok(link)
        },
        None => Err(MalformedFilename),
    }
}

} // verus!
