//! Path-name helpers with the Unix semantics of `std::path::Path` for the
//! last component of a path.
use crate::text::{chars_of, last_index_of, lemma_last_index_of, rfind_char, slice_chars, string_from_chars};
use vstd::prelude::*;

verus! {

/// The last non-empty, non-`.` component of a `/`-separated path (empty when
/// there is none).
pub open spec fn last_component(p: Seq<char>) -> Seq<char>
    decreases p.len(),
{
    if p.len() == 0 {
        Seq::empty()
    } else if p.last() == '/' {
        last_component(p.drop_last())
    } else {
        let start = match last_index_of(p, '/') {
            Some(k) => k + 1,
            None => 0,
        };
        proof {
            lemma_last_index_of(p, '/');
        }
        let segment = p.subrange(start, p.len() as int);
        if segment == seq!['.'] {
            last_component(p.subrange(0, start))
        } else {
            segment
        }
    }
}

/// `Path::file_name`: the last component, unless the path has none or ends
/// in `..`.
pub open spec fn file_name_spec(p: Seq<char>) -> Option<Seq<char>> {
    let c = last_component(p);
    if c.len() == 0 || c == seq!['.', '.'] {
        None
    } else {
        Some(c)
    }
}

/// `Path::extension` of a file name: the text after its last `.`, provided
/// the dot is not the name's first character and the name is not `..`.
pub open spec fn extension_of_name(name: Seq<char>) -> Option<Seq<char>> {
    if name == seq!['.', '.'] {
        None
    } else {
        match last_index_of(name, '.') {
            Some(i) => if i > 0 {
                Some(name.subrange(i + 1, name.len() as int))
            } else {
                None
            },
            None => None,
        }
    }
}

pub proof fn lemma_last_component_len(p: Seq<char>)
    ensures
        last_component(p).len() <= p.len(),
    decreases p.len(),
{
    lemma_last_index_of(p, '/');
    if p.len() > 0 {
        if p.last() == '/' {
            lemma_last_component_len(p.drop_last());
        } else {
            let start = match last_index_of(p, '/') {
                Some(k) => k + 1,
                None => 0,
            };
            if p.subrange(start, p.len() as int) == seq!['.'] {
                lemma_last_component_len(p.subrange(0, start));
            }
        }
    }
}

/// The last component of a path as characters.
pub fn last_component_chars(p: &[char]) -> (r: Vec<char>)
    ensures
        r@ == last_component(p@),
{
    let mut end = p.len();
    let ghost full = p@;
    assert(p@.subrange(0, p.len() as int) =~= p@);
    while end > 0
        invariant
            end <= p.len(),
            last_component(p@.subrange(0, end as int)) == last_component(p@),
        decreases end,
    {
        let ghost cur = p@.subrange(0, end as int);
        if p[end - 1] == '/' {
            assert(cur.drop_last() =~= p@.subrange(0, end - 1));
            end -= 1;
        } else {
            let prefix = slice_chars(p, 0, end);
            proof {
                lemma_last_index_of(prefix@, '/');
            }
            let start = match rfind_char(&prefix, '/') {
                Some(k) => k + 1,
                None => 0,
            };
            proof {
                lemma_last_index_of(cur, '/');
            }
            let segment = slice_chars(p, start, end);
            assert(cur.subrange(start as int, end as int) =~= segment@);
            if segment.len() == 1 && segment[0] == '.' {
                assert(segment@ =~= seq!['.']);
                assert(cur.subrange(0, start as int) =~= p@.subrange(0, start as int));
                end = start;
            } else {
                assert(segment@ != seq!['.']) by {
                    if segment@ == seq!['.'] {
                        assert(segment@.len() == 1);
                        assert(segment@[0] == '.');
                    }
                }
                return segment;
            }
        }
    }
    assert(p@.subrange(0, 0) =~= Seq::<char>::empty());
    Vec::new()
}

/// `Path::file_name` for a `/`-separated path.
pub fn file_name_of(path: &str) -> (r: Option<String>)
    ensures
        match r {
            Some(s) => file_name_spec(path@) == Some(s@),
            None => file_name_spec(path@) is None,
        },
{
    let chars = chars_of(path);
    let c = last_component_chars(&chars);
    if c.len() == 0 || (c.len() == 2 && c[0] == '.' && c[1] == '.') {
        proof {
            if c.len() == 2 {
                assert(c@ =~= seq!['.', '.']);
            }
        }
        None
    } else {
        assert(c@ != seq!['.', '.']) by {
            if c@ == seq!['.', '.'] {
                assert(c@[0] == '.' && c@[1] == '.');
            }
        }
        Some(string_from_chars(&c))
    }
}

/// `Path::extension` of a single file name.
pub fn extension_chars(name: &[char]) -> (r: Option<Vec<char>>)
    ensures
        match r {
            Some(e) => extension_of_name(name@) == Some(e@),
            None => extension_of_name(name@) is None,
        },
{
    if name.len() == 2 && name[0] == '.' && name[1] == '.' {
        assert(name@ =~= seq!['.', '.']);
        return None;
    }
    assert(name@ != seq!['.', '.']) by {
        if name@ == seq!['.', '.'] {
            assert(name@[0] == '.' && name@[1] == '.');
        }
    }
    match rfind_char(name, '.') {
        Some(i) => {
            proof {
                lemma_last_index_of(name@, '.');
            }
            if i > 0 {
                Some(slice_chars(name, i + 1, name.len()))
            } else {
                None
            }
        },
        None => None,
    }
}

} // verus!
