use vstd::prelude::*;
use vstd::string::*;

verus! {

/// Side of the square that every thumbnail is resized to.
pub const TARGET_SIZE: u32 = 500;

/// An existing thumbnail no larger than this in both dimensions is left alone.
pub const SKIP_THRESHOLD: u32 = 600;

/// Index of the last `'.'` in `s`, or -1 when there is none.
pub open spec fn last_dot(s: Seq<char>) -> int
    decreases s.len(),
{
    if s.len() == 0 {
        -1
    } else if s.last() == '.' {
        s.len() - 1
    } else {
        last_dot(s.drop_last())
    }
}

/// The extension of a file name: what follows its last dot, unless that dot
/// is the first character.
pub open spec fn extension_of(s: Seq<char>) -> Option<Seq<char>> {
    if last_dot(s) <= 0 {
        None
    } else {
        Some(s.subrange(last_dot(s) + 1, s.len() as int))
    }
}

/// The file name without its extension and the dot before it.
pub open spec fn stem_of(s: Seq<char>) -> Seq<char> {
    if last_dot(s) <= 0 {
        s
    } else {
        s.subrange(0, last_dot(s))
    }
}

pub open spec fn cover_prefix() -> Seq<char> {
    seq!['c', 'o', 'v', 'e', 'r']
}

pub open spec fn target_extension() -> Seq<char> {
    seq!['b', 'm', 'p']
}

/// A cover file: its name starts with `cover` and its extension is not the
/// thumbnail's.
pub open spec fn spec_is_cover_name(s: Seq<char>) -> bool {
    &&& s.len() >= cover_prefix().len()
    &&& s.subrange(0, cover_prefix().len() as int) == cover_prefix()
    &&& extension_of(s) != Some(target_extension())
}

/// The name of the thumbnail of a file: same stem, target extension.
pub open spec fn spec_output_name(s: Seq<char>) -> Seq<char> {
    stem_of(s) + seq!['.'] + target_extension()
}

proof fn lemma_last_dot_bounds(s: Seq<char>)
    ensures
        -1 <= last_dot(s) < s.len(),
        last_dot(s) >= 0 ==> s[last_dot(s)] == '.',
        forall|j: int| last_dot(s) < j < s.len() ==> s[j] != '.',
    decreases s.len(),
{
    if s.len() > 0 && s.last() != '.' {
        lemma_last_dot_bounds(s.drop_last());
        assert forall|j: int| last_dot(s) < j < s.len() implies s[j] != '.' by {
            if j < s.len() - 1 {
                assert(s[j] == s.drop_last()[j]);
            }
        }
    }
}

/// Finds the index of the last dot of `name`.
fn find_last_dot(name: &str) -> (r: Option<usize>)
    ensures
        match r {
            Some(i) => i == last_dot(name@),
            None => last_dot(name@) == -1,
        },
{
    let n = name.unicode_len();
    let mut last: Option<usize> = None;
    let mut i: usize = 0;
    while i < n
        invariant
            n == name@.len(),
            i <= n,
            match last {
                Some(k) => k == last_dot(name@.subrange(0, i as int)),
                None => last_dot(name@.subrange(0, i as int)) == -1,
            },
        decreases n - i,
    {
        let c = name.get_char(i);
        assert(name@.subrange(0, i + 1).drop_last() =~= name@.subrange(0, i as int));
        if c == '.' {
            last = Some(i);
        }
        i = i + 1;
    }
    assert(name@.subrange(0, n as int) =~= name@);
    last
}

/// Whether a file of this name is cover art that still needs a thumbnail.
pub fn is_cover_name(name: &str) -> (r: bool)
    ensures
        r == spec_is_cover_name(name@),
{
    let n = name.unicode_len();
    if n < 5 {
        return false;
    }
    let prefix = name.get_char(0) == 'c' && name.get_char(1) == 'o' && name.get_char(2) == 'v'
        && name.get_char(3) == 'e' && name.get_char(4) == 'r';
    assert(prefix <==> name@.subrange(0, 5) =~= cover_prefix());
    if !prefix {
        return false;
    }
    let dot = find_last_dot(name);
    proof {
        lemma_last_dot_bounds(name@);
    }
    let d = match dot {
        Some(d) if d > 0 => d,
        _ => return true,
    };
    let is_target = n - d == 4 && name.get_char(d + 1) == 'b' && name.get_char(d + 2) == 'm'
        && name.get_char(d + 3) == 'p';
    assert(is_target <==> name@.subrange(d + 1, n as int) =~= target_extension());
    !is_target
}

/// The name of the thumbnail that belongs to a file of this name.
pub fn output_name(name: &str) -> (r: String)
    ensures
        r@ == spec_output_name(name@),
{
    let dot = find_last_dot(name);
    proof {
        lemma_last_dot_bounds(name@);
    }
    let stem = match dot {
        Some(d) if d > 0 => name.substring_char(0, d),
        _ => name,
    };
    let r = String::from_str(stem).concat(".bmp");
    proof {
        reveal_strlit(".bmp");
    }
    assert(r@ =~= spec_output_name(name@));
    r
}

} // verus!
