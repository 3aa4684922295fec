//! The command-line vocabulary: pixel formats, revisions and nodes named
//! by text.
use vstd::prelude::*;
use vstd::string::StringSliceAdditionalSpecFns;
use vstd::utf8::{encode_utf8, is_ascii_chars_encode_utf8};
use crate::document::color::Channel;
use crate::document::math::{Uuid, id_text_char, id_to_string};
use crate::text::same_text;
use crate::document::file::{File, FileError, read_ok, read_spec, rows_view, row_index};
use crate::document::parser::{Header, Index, IndexRowView};

verus! {

/// The component bits a format name stands for: I is 1, RGB 2, A 4, UV 8
/// and XYZ 16.
pub open spec fn format_bits(format: Seq<char>) -> Option<u8> {
    if format == seq!['I'] {
        Some(1u8)
    } else if format == seq!['I', 'X', 'Y', 'Z'] {
        Some(17u8)
    } else if format == seq!['R', 'G', 'B'] {
        Some(2u8)
    } else if format == seq!['R', 'G', 'B', 'X', 'Y', 'Z'] {
        Some(18u8)
    } else if format == seq!['R', 'G', 'B', 'A'] {
        Some(6u8)
    } else if format == seq!['R', 'G', 'B', 'A', 'X', 'Y', 'Z'] {
        Some(22u8)
    } else if format == seq!['U', 'V'] {
        Some(8u8)
    } else {
        None
    }
}

/// The component set a format name stands for: I, IXYZ, RGB, RGBXYZ,
/// RGBA, RGBAXYZ or UV. Any other name is an unknown format.
pub fn map_format_to_channel(format: &str) -> (r: Result<Channel, &'static str>)
    ensures
        match format_bits(format@) {
            Some(bits) => r == Ok::<Channel, &'static str>(Channel { bits }),
            None => r matches Err(e) && e@ == "unknown format"@,
        },
{
    proof {
        reveal_strlit("I");
        reveal_strlit("IXYZ");
        reveal_strlit("RGB");
        reveal_strlit("RGBXYZ");
        reveal_strlit("RGBA");
        reveal_strlit("RGBAXYZ");
        reveal_strlit("UV");
        assert("I"@ =~= seq!['I']);
        assert("IXYZ"@ =~= seq!['I', 'X', 'Y', 'Z']);
        assert("RGB"@ =~= seq!['R', 'G', 'B']);
        assert("RGBXYZ"@ =~= seq!['R', 'G', 'B', 'X', 'Y', 'Z']);
        assert("RGBA"@ =~= seq!['R', 'G', 'B', 'A']);
        assert("RGBAXYZ"@ =~= seq!['R', 'G', 'B', 'A', 'X', 'Y', 'Z']);
        assert("UV"@ =~= seq!['U', 'V']);
        assert(1u8 | 16u8 == 17u8) by (bit_vector);
        assert(2u8 | 16u8 == 18u8) by (bit_vector);
        assert(2u8 | 4u8 == 6u8) by (bit_vector);
        assert(6u8 | 16u8 == 22u8) by (bit_vector);
    }
    if same_text(format, "I") {
        Ok(Channel::from_bits(Channel::I))
    } else if same_text(format, "IXYZ") {
        Ok(Channel::from_bits(Channel::I).union(Channel::from_bits(Channel::XYZ)))
    } else if same_text(format, "RGB") {
        Ok(Channel::from_bits(Channel::RGB))
    } else if same_text(format, "RGBXYZ") {
        Ok(Channel::from_bits(Channel::RGB).union(Channel::from_bits(Channel::XYZ)))
    } else if same_text(format, "RGBA") {
        Ok(Channel::from_bits(Channel::RGB).union(Channel::from_bits(Channel::A)))
    } else if same_text(format, "RGBAXYZ") {
        Ok(Channel::from_bits(Channel::RGB).union(Channel::from_bits(Channel::A)).union(
            Channel::from_bits(Channel::XYZ),
        ))
    } else if same_text(format, "UV") {
        Ok(Channel::from_bits(Channel::UV))
    } else {
        Err("unknown format")
    }
}

/// The identifier's hyphenated text begins with the bytes `prefix`.
pub open spec fn id_starts_with(value: u128, prefix: Seq<u8>) -> bool {
    &&& prefix.len() <= 36
    &&& forall|i: int| 0 <= i < prefix.len() ==> prefix[i] == (id_text_char(value, i) as u8)
}

/// `k` is the first index of `ids` whose text begins with `prefix`.
pub open spec fn is_first_match(ids: Seq<Uuid>, prefix: Seq<u8>, k: int) -> bool {
    &&& 0 <= k < ids.len()
    &&& id_starts_with(ids[k].value, prefix)
    &&& forall|j: int| 0 <= j < k ==> !id_starts_with(ids[j].value, prefix)
}

fn text_starts_with(text: &String, prefix: &[u8]) -> (r: bool)
    requires
        text@.len() == 36,
        vstd::utf8::is_ascii_chars(text@),
        prefix@.len() <= 36,
    ensures
        r == (forall|i: int| 0 <= i < prefix@.len() ==> prefix@[i] == (text@[i] as u8)),
{
    let bytes = text.as_str().as_bytes();
    proof {
        is_ascii_chars_encode_utf8(text@);
    }
    let mut k: usize = 0;
    while k < prefix.len()
        invariant
            k <= prefix@.len() <= 36,
            bytes@ == encode_utf8(text@),
            bytes@.len() == 36,
            forall|i: int| 0 <= i < 36 ==> #[trigger] bytes@[i] == (text@[i] as u8),
            forall|j: int| 0 <= j < k ==> prefix@[j] == (text@[j] as u8),
        decreases prefix@.len() - k,
    {
        if prefix[k] != bytes[k] {
            return false;
        }
        k = k + 1;
    }
    true
}

/// The first identifier whose hyphenated text begins with `begins_with`;
/// an error when none does.
pub fn find_id_lazy(ids: &[Uuid], begins_with: &str) -> (r: Result<Uuid, &'static str>)
    requires
        ids@.len() == 0 || begins_with.spec_bytes().len() <= 36,
    ensures
        match r {
            Ok(id) => exists|k: int| is_first_match(ids@, begins_with.spec_bytes(), k) && ids@[k] == id,
            Err(e) => e@ == "Could not find node."@ && forall|k: int|
                0 <= k < ids@.len() ==> !id_starts_with(#[trigger] ids@[k].value, begins_with.spec_bytes()),
        },
{
    let prefix = begins_with.as_bytes();
    let mut k: usize = 0;
    while k < ids.len()
        invariant
            k <= ids@.len(),
            prefix@ == begins_with.spec_bytes(),
            ids@.len() == 0 || prefix@.len() <= 36,
            forall|j: int| 0 <= j < k ==> !id_starts_with(#[trigger] ids@[j].value, prefix@),
        decreases ids@.len() - k,
    {
        let text = id_to_string(ids[k]);
        proof {
            assert forall|i: int| 0 <= i < 36 implies '\0' <= #[trigger] text@[i] <= '\u{7f}' by {
                assert(text@[i] == id_text_char(ids@[k as int].value, i));
            }
        }
        if text_starts_with(&text, prefix) {
            assert(is_first_match(ids@, prefix@, k as int));
            return Ok(ids[k]);
        }
        k = k + 1;
    }
    Err("Could not find node.")
}

/// A revision as its read gives it: header, index record and rows.
pub type Revision = (Header, Index, Seq<IndexRowView>);

/// The file holds revision `rev` as read.
pub open spec fn holds_revision(f: File, rev: Revision) -> bool {
    &&& f.header == rev.0
    &&& f.index == rev.1
    &&& rows_view(f.rows@) == rev.2
    &&& f.uuid_index@ == row_index(rev.2)
}

/// Walking back from the revision whose index ends at `position`, within
/// `n` steps a read fails, the walk reaches the first revision, or it
/// reaches one whose hash text begins with `prefix`; and every read on the
/// way can be made.
pub open spec fn walk_ends(file: Seq<u8>, position: int, prefix: Seq<u8>, n: nat) -> bool
    decreases n,
{
    &&& read_ok(file, position)
    &&& match read_spec(file, position) {
        Err(_) => true,
        Ok((_, i, _)) => id_starts_with(i.hash.value, prefix) || i.prev_offset == 0
            || (n > 0 && walk_ends(file, i.prev_offset as int, prefix, (n - 1) as nat)),
    }
}

/// The first revision, walking back from the one whose index ends at
/// `position`, whose hash text begins with `prefix`; none when the walk
/// ends first.
pub open spec fn found_from(file: Seq<u8>, position: int, prefix: Seq<u8>, n: nat) -> Option<Revision>
    decreases n,
{
    match read_spec(file, position) {
        Err(_) => None,
        Ok((h, i, rows)) => if id_starts_with(i.hash.value, prefix) {
            Some((h, i, rows))
        } else if i.prev_offset == 0 || n == 0 {
            None
        } else {
            found_from(file, i.prev_offset as int, prefix, (n - 1) as nat)
        },
    }
}

/// Any two lengths of a walk that ends find the same revision.
proof fn lemma_found_from_fuel(file: Seq<u8>, position: int, prefix: Seq<u8>, a: nat, b: nat)
    requires
        walk_ends(file, position, prefix, a),
        walk_ends(file, position, prefix, b),
    ensures
        found_from(file, position, prefix, a) == found_from(file, position, prefix, b),
    decreases a,
{
    if let Ok((_, i, _)) = read_spec(file, position) {
        if !id_starts_with(i.hash.value, prefix) && i.prev_offset != 0 {
            lemma_found_from_fuel(file, i.prev_offset as int, prefix, (a - 1) as nat, (b - 1) as nat);
        }
    }
}

/// The latest revision of a file's bytes or, given the start of a hash's
/// text, the latest revision whose hash text begins so; an error when no
/// revision's does.
pub fn load_file_at(file: &[u8], begins_with: Option<&str>) -> (r: Result<File, &'static str>)
    requires
        read_ok(file@, file@.len() as int),
        read_spec(file@, file@.len() as int) is Ok,
        begins_with matches Some(p) ==> p.spec_bytes().len() <= 36
            && exists|n: nat| walk_ends(file@, file@.len() as int, p.spec_bytes(), n),
    ensures
        match begins_with {
            None => r matches Ok(f) && holds_revision(f, read_spec(file@, file@.len() as int)->Ok_0),
            Some(p) => forall|n: nat| #[trigger] walk_ends(file@, file@.len() as int, p.spec_bytes(), n) ==>
                match found_from(file@, file@.len() as int, p.spec_bytes(), n) {
                    Some(rev) => r matches Ok(f) && holds_revision(f, rev),
                    None => r matches Err(e) && e@ == "Could not find revision."@,
                },
        },
{
    // The latest revision reads, as `requires` states.
    let mut current = match File::read(file) {
        Ok(f) => f,
        Err(_) => return Err("Could not parse document."),
    };
    match begins_with {
        None => Ok(current),
        Some(p) => {
            let prefix = p.as_bytes();
            let ghost len = file@.len() as int;
            let ghost n0: nat = choose|n: nat| walk_ends(file@, len, prefix@, n);
            let ghost mut pos: int = len;
            let ghost mut fuel: nat = n0;
            loop
                invariant
                    begins_with == Some(p),
                    len == file@.len() as int,
                    prefix@ == p.spec_bytes(),
                    prefix@.len() <= 36,
                    walk_ends(file@, pos, prefix@, fuel),
                    read_spec(file@, pos) matches Ok(rev) && holds_revision(current, rev),
                    found_from(file@, len, prefix@, n0) == found_from(file@, pos, prefix@, fuel),
                    walk_ends(file@, len, prefix@, n0),
                decreases fuel,
            {
                let text = id_to_string(current.index.hash);
                proof {
                    assert forall|i: int| 0 <= i < 36 implies '\0' <= #[trigger] text@[i] <= '\u{7f}' by {
                        assert(text@[i] == id_text_char(current.index.hash.value, i));
                    }
                }
                if text_starts_with(&text, prefix) {
                    proof {
                        assert(id_starts_with(current.index.hash.value, prefix@));
                        assert(found_from(file@, pos, prefix@, fuel) == Some(read_spec(file@, pos)->Ok_0));
                        assert forall|n: nat| #[trigger] walk_ends(file@, len, p.spec_bytes(), n) implies
                            found_from(file@, len, p.spec_bytes(), n) == Some(read_spec(file@, pos)->Ok_0) by {
                            lemma_found_from_fuel(file@, len, prefix@, n, n0);
                        }
                    }
                    return Ok(current);
                }
                proof {
                    if id_starts_with(current.index.hash.value, prefix@) {
                        assert forall|i: int| 0 <= i < prefix@.len() implies prefix@[i] == (text@[i] as u8) by {
                            assert(text@[i] == id_text_char(current.index.hash.value, i));
                        }
                    }
                }
                let ghost prev = current.index.prev_offset as int;
                proof {
                    assert(!id_starts_with(current.index.hash.value, prefix@));
                    if prev != 0 {
                        assert(walk_ends(file@, prev, prefix@, (fuel - 1) as nat));
                        assert(read_ok(file@, prev));
                    }
                }
                match current.read_previous(file) {
                    Ok(f) => {
                        proof {
                            pos = prev;
                            fuel = (fuel - 1) as nat;
                        }
                        current = f;
                    },
                    Err(_) => {
                        proof {
                            if prev != 0 {
                                assert(found_from(file@, prev, prefix@, (fuel - 1) as nat) is None);
                            }
                            assert(found_from(file@, pos, prefix@, fuel) is None);
                            assert forall|n: nat| #[trigger] walk_ends(file@, len, p.spec_bytes(), n) implies
                                found_from(file@, len, p.spec_bytes(), n) is None by {
                                lemma_found_from_fuel(file@, len, prefix@, n, n0);
                            }
                        }
                        return Err("Could not find revision.");
                    },
                }
            }
        },
    }
}

} // verus!
