use vstd::prelude::*;
use vstd::string::StrSliceExecFns;

verus! {

/// What `str::to_lowercase` makes of a string.
pub uninterp spec fn lower_of(s: Seq<char>) -> Seq<char>;

/// Relies on `str::to_lowercase`: the result depends on the characters alone.
#[verifier::external_body]
fn lowercase(s: &str) -> (r: String)
    ensures
        r@ == lower_of(s@),
{
    s.to_lowercase()
}

pub open spec fn nvidia() -> Seq<char> {
    seq!['n', 'v', 'i', 'd', 'i', 'a']
}

/// `needle` occurs in `hay` at `i`.
pub open spec fn occurs_at(hay: Seq<char>, needle: Seq<char>, i: int) -> bool {
    0 <= i && i + needle.len() <= hay.len() && hay.subrange(i, i + needle.len()) == needle
}

pub open spec fn has_infix(hay: Seq<char>, needle: Seq<char>) -> bool {
    exists|i: int| occurs_at(hay, needle, i)
}

/// Whether the vendor name occurs in already lower-cased text.
pub fn mentions_nvidia(folded: &str) -> (r: bool)
    ensures
        r == has_infix(folded@, nvidia()),
{
    let needle: Vec<char> = vec!['n', 'v', 'i', 'd', 'i', 'a'];
    assert(needle@ =~= nvidia());
    let n = folded.unicode_len();
    if n < needle.len() {
        assert forall|i: int| !occurs_at(folded@, nvidia(), i) by {}
        return false;
    }
    let last = n - needle.len();
    let mut i: usize = 0;
    while i <= last
        invariant
            needle@ == nvidia(),
            folded@.len() >= needle@.len(),
            n == folded@.len(),
            last == folded@.len() - needle@.len(),
            i <= last + 1,
            forall|j: int| 0 <= j < i ==> !occurs_at(folded@, nvidia(), j),
        decreases last + 1 - i,
    {
        let mut k: usize = 0;
        let mut same = true;
        while k < needle.len()
            invariant
                needle@ == nvidia(),
                folded@.len() >= needle@.len(),
                n == folded@.len(),
                i <= last,
                last == folded@.len() - needle@.len(),
                k <= needle@.len(),
                same == forall|m: int| 0 <= m < k ==> folded@[i + m] == needle@[m],
            decreases needle.len() - k,
        {
            if folded.get_char(i + k) != needle[k] {
                same = false;
            }
            k += 1;
        }
        if same {
            assert(folded@.subrange(i as int, i + needle@.len()) =~= needle@);
            assert(occurs_at(folded@, nvidia(), i as int));
            return true;
        }
        assert(!occurs_at(folded@, nvidia(), i as int)) by {
            if occurs_at(folded@, nvidia(), i as int) {
                assert forall|m: int| 0 <= m < needle@.len() implies folded@[i + m] == needle@[m] by {
                    assert(folded@.subrange(i as int, i + needle@.len())[m] == folded@[i + m]);
                }
            }
        }
        i += 1;
    }
    false
}

/// Whether a driver, by its name and description, is one whose overlay
/// planes are not to be used: the vendor name, in any case, in either.
pub fn skip_overlay_planes(driver_name: &str, driver_description: &str) -> (r: bool)
    ensures
        r == (has_infix(lower_of(driver_name@), nvidia()) || has_infix(lower_of(driver_description@), nvidia())),
{
    let name = lowercase(driver_name);
    let description = lowercase(driver_description);
    mentions_nvidia(name.as_str()) || mentions_nvidia(description.as_str())
}

/// The overlay planes handed to output setup: none on a driver whose
/// overlay planes are not to be used, the given ones otherwise. Primary and
/// cursor planes are not affected.
pub fn output_overlay_planes(driver_name: &str, driver_description: &str, overlays: Vec<u32>) -> (r: Vec<u32>)
    ensures
        r@ == if has_infix(lower_of(driver_name@), nvidia()) || has_infix(lower_of(driver_description@), nvidia()) {
            Seq::<u32>::empty()
        } else {
            overlays@
        },
{
    if skip_overlay_planes(driver_name, driver_description) {
        Vec::new()
    } else {
        overlays
    }
}

} // verus!
