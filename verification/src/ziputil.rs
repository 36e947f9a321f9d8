//! Archive entry lookup over an in-memory ZIP: an entry is found by its
//! exact name first, then by the URL-decoded form of the requested name,
//! then by the URL-decoded forms of the stored names. The archive itself is
//! read by the outside world; its entry list and entry texts are trusted by
//! name.
use vstd::prelude::*;
use vstd::string::StrSliceExecFns;
use vstd::string::StringExecFns;

use crate::textutil::percent_decoded_of;
use crate::textutil::plus_to_space_spec;
use crate::textutil::url_decode;

verus! {

#[verifier::external_type_specification]
#[verifier::external_body]
#[verifier::reject_recursive_types(T)]
pub struct ExCursor<T>(std::io::Cursor<T>);

#[verifier::external_type_specification]
#[verifier::external_body]
#[verifier::reject_recursive_types(R)]
pub struct ExZipArchive<R>(zip::ZipArchive<R>);

/// Names the entry names an archive's central directory lists, in index
/// order.
pub uninterp spec fn zip_entry_names(a: zip::ZipArchive<std::io::Cursor<Vec<u8>>>) -> Seq<
    Seq<char>,
>;

/// Names the text a named entry decompresses to: present exactly when the
/// name's own bytes match an entry's stored raw name and the entry reads
/// as UTF-8.
pub uninterp spec fn zip_entry_text(
    a: zip::ZipArchive<std::io::Cursor<Vec<u8>>>,
    name: Seq<char>,
) -> Option<Seq<char>>;

/// Names the text the entry at an index decompresses to: present exactly
/// when the index is in range and the entry reads as UTF-8. This is not
/// interchangeable with the lookup by name: an entry whose stored raw name
/// is not the UTF-8 of its decoded form is reachable by index but not
/// under the decoded name.
pub uninterp spec fn zip_entry_text_at(
    a: zip::ZipArchive<std::io::Cursor<Vec<u8>>>,
    index: int,
) -> Option<Seq<char>>;

/// Relies on `zip::ZipArchive::len`: the number of entries the central
/// directory lists.
#[verifier::external_body]
fn zip_len(a: &zip::ZipArchive<std::io::Cursor<Vec<u8>>>) -> (r: usize)
    ensures
        r == zip_entry_names(*a).len(),
{
    a.len()
}

/// Relies on `zip::ZipArchive::name_for_index`: the stored name of the
/// entry at the index, present exactly for indices below the entry count.
#[verifier::external_body]
fn zip_name_at(a: &zip::ZipArchive<std::io::Cursor<Vec<u8>>>, i: usize) -> (r: Option<String>)
    ensures
        match r {
            Some(s) => i < zip_entry_names(*a).len() && s@ == zip_entry_names(*a)[i as int],
            None => i >= zip_entry_names(*a).len(),
        },
{
    a.name_for_index(i).map(|s| s.to_string())
}

/// Relies on `zip::ZipArchive::by_name` and `Read::read_to_string`: yields
/// the named entry's text, failing when the entry is missing, corrupt or
/// not UTF-8; the archive's entry list is unchanged.
#[verifier::external_body]
fn zip_text_by_name(a: &mut zip::ZipArchive<std::io::Cursor<Vec<u8>>>, name: &str) -> (r: Result<
    String,
    String,
>)
    ensures
        zip_entry_names(*final(a)) == zip_entry_names(*old(a)),
        forall|n: Seq<char>| zip_entry_text(*final(a), n) == zip_entry_text(*old(a), n),
        forall|i: int| zip_entry_text_at(*final(a), i) == zip_entry_text_at(*old(a), i),
        match r {
            Ok(s) => zip_entry_text(*old(a), name@) == Some(s@),
            Err(_) => zip_entry_text(*old(a), name@) is None,
        },
{
    let mut entry = match a.by_name(name) {
        Ok(e) => e,
        Err(e) => {
            return Err(format!("Failed to get entry '{name}': {e}"));
        },
    };
    let mut contents = String::new();
    match std::io::Read::read_to_string(&mut entry, &mut contents) {
        Ok(_) => Ok(contents),
        Err(e) => Err(format!("Failed to read entry '{name}': {e}")),
    }
}

/// Relies on `zip::ZipArchive::by_index` and `Read::read_to_string`:
/// yields the text of the entry at the index, failing outside the entry
/// count or when the entry is corrupt or not UTF-8.
#[verifier::external_body]
fn zip_text_by_index(a: &mut zip::ZipArchive<std::io::Cursor<Vec<u8>>>, index: usize) -> (r: Result<
    String,
    String,
>)
    ensures
        zip_entry_names(*final(a)) == zip_entry_names(*old(a)),
        forall|n: Seq<char>| zip_entry_text(*final(a), n) == zip_entry_text(*old(a), n),
        forall|i: int| zip_entry_text_at(*final(a), i) == zip_entry_text_at(*old(a), i),
        match r {
            Ok(s) => index < zip_entry_names(*old(a)).len() && zip_entry_text_at(
                *old(a),
                index as int,
            ) == Some(s@),
            Err(_) => zip_entry_text_at(*old(a), index as int) is None,
        },
{
    let mut entry = match a.by_index(index) {
        Ok(e) => e,
        Err(e) => {
            return Err(format!("Failed to get entry: {e}"));
        },
    };
    let mut contents = String::new();
    match std::io::Read::read_to_string(&mut entry, &mut contents) {
        Ok(_) => Ok(contents),
        Err(e) => Err(format!("Failed to read entry: {e}")),
    }
}

/// Reads the text of the entry at `index`: present exactly when the index
/// is in range and the entry reads as UTF-8.
pub fn read_zip_entry_by_index(
    archive: &mut zip::ZipArchive<std::io::Cursor<Vec<u8>>>,
    index: usize,
) -> (r: Result<String, String>)
    ensures
        zip_entry_names(*final(archive)) == zip_entry_names(*old(archive)),
        match r {
            Ok(s) => index < zip_entry_names(*old(archive)).len() && zip_entry_text_at(
                *old(archive),
                index as int,
            ) == Some(s@),
            Err(_) => zip_entry_text_at(*old(archive), index as int) is None,
        },
{
    zip_text_by_index(archive, index)
}

/// Reads the text of the entry stored under exactly `name`: present when
/// the entry exists and reads as UTF-8, an error otherwise.
pub fn read_zip_entry_by_name(
    archive: &mut zip::ZipArchive<std::io::Cursor<Vec<u8>>>,
    name: &str,
) -> (r: Result<String, String>)
    ensures
        zip_entry_names(*final(archive)) == zip_entry_names(*old(archive)),
        forall|i: int| zip_entry_text_at(*final(archive), i) == zip_entry_text_at(
            *old(archive),
            i,
        ),
        match r {
            Ok(s) => zip_entry_text(*old(archive), name@) == Some(s@),
            Err(_) => zip_entry_text(*old(archive), name@) is None,
        },
{
    zip_text_by_name(archive, name)
}

/// What URL-decoding a name yields.
pub open spec fn url_decoded(s: Seq<char>) -> Seq<char> {
    percent_decoded_of(plus_to_space_spec(s))
}

/// The first index at or after `i` whose stored name reads `target`, or
/// the entry count.
pub open spec fn exact_name_index(names: Seq<Seq<char>>, target: Seq<char>, i: int) -> int
    decreases names.len() - i,
{
    if i < 0 || i >= names.len() {
        names.len() as int
    } else if names[i] == target {
        i
    } else {
        exact_name_index(names, target, i + 1)
    }
}

/// The first index at or after `i` whose stored name URL-decodes to `t1`
/// or to `t2`, or the entry count.
pub open spec fn decoded_name_index(
    names: Seq<Seq<char>>,
    t1: Seq<char>,
    t2: Seq<char>,
    i: int,
) -> int
    decreases names.len() - i,
{
    if i < 0 || i >= names.len() {
        names.len() as int
    } else if url_decoded(names[i]) == t1 || url_decoded(names[i]) == t2 {
        i
    } else {
        decoded_name_index(names, t1, t2, i + 1)
    }
}

/// The index `find_zip_entry` owes: the first exact match of the requested
/// name; else, when URL-decoding changes the name, the first exact match
/// of the decoded name; else the first entry whose own name URL-decodes to
/// either; else nothing.
pub open spec fn find_zip_entry_spec(names: Seq<Seq<char>>, filename: Seq<char>) -> Option<int> {
    let d = url_decoded(filename);
    let pass1 = exact_name_index(names, filename, 0);
    let pass2 = exact_name_index(names, d, 0);
    let pass3 = decoded_name_index(names, filename, d, 0);
    if pass1 < names.len() {
        Some(pass1)
    } else if d != filename && pass2 < names.len() {
        Some(pass2)
    } else if pass3 < names.len() {
        Some(pass3)
    } else {
        None
    }
}

/// Finds an archive entry by name, exactly first, then modulo URL
/// decoding of either side.
pub fn find_zip_entry(
    archive: &zip::ZipArchive<std::io::Cursor<Vec<u8>>>,
    filename: &str,
) -> (r: Option<usize>)
    ensures
        match r {
            Some(i) => find_zip_entry_spec(zip_entry_names(*archive), filename@) == Some(i as int),
            None => find_zip_entry_spec(zip_entry_names(*archive), filename@) is None,
        },
{
    let ghost names = zip_entry_names(*archive);
    let n = zip_len(archive);
    let target = String::from_str(filename);
    let mut i: usize = 0;
    while i < n
        invariant
            n == names.len(),
            names == zip_entry_names(*archive),
            i <= n,
            target@ == filename@,
            exact_name_index(names, filename@, 0) == exact_name_index(names, filename@, i as int),
        decreases n - i,
    {
        let name = zip_name_at(archive, i);
        if let Some(name) = name {
            if name.eq(&target) {
                proof {
                    assert(exact_name_index(names, filename@, i as int) == i);
                }
                return Some(i);
            }
        }
        i = i + 1;
    }
    let decoded = url_decode(filename);
    if !decoded.as_str().eq(filename) {
        let mut i: usize = 0;
        while i < n
            invariant
                n == names.len(),
                names == zip_entry_names(*archive),
                i <= n,
                decoded@ == url_decoded(filename@),
                decoded@ != filename@,
                exact_name_index(names, filename@, 0) == names.len(),
                exact_name_index(names, decoded@, 0) == exact_name_index(
                    names,
                    decoded@,
                    i as int,
                ),
            decreases n - i,
        {
            let name = zip_name_at(archive, i);
            if let Some(name) = name {
                if name.eq(&decoded) {
                    proof {
                        assert(exact_name_index(names, decoded@, i as int) == i);
                    }
                    return Some(i);
                }
            }
            i = i + 1;
        }
        let mut i: usize = 0;
        while i < n
            invariant
                n == names.len(),
                names == zip_entry_names(*archive),
                i <= n,
                decoded@ == url_decoded(filename@),
                decoded@ != filename@,
                exact_name_index(names, filename@, 0) == names.len(),
                exact_name_index(names, decoded@, 0) == names.len(),
                decoded_name_index(names, filename@, decoded@, 0) == decoded_name_index(
                    names,
                    filename@,
                    decoded@,
                    i as int,
                ),
            decreases n - i,
        {
            let name = zip_name_at(archive, i);
            if let Some(name) = name {
                let entry_decoded = url_decode(name.as_str());
                if entry_decoded.as_str().eq(filename) || entry_decoded.eq(&decoded) {
                    proof {
                        assert(decoded_name_index(names, filename@, decoded@, i as int) == i);
                    }
                    return Some(i);
                }
            }
            i = i + 1;
        }
        None
    } else {
        let mut i: usize = 0;
        while i < n
            invariant
                n == names.len(),
                names == zip_entry_names(*archive),
                i <= n,
                decoded@ == url_decoded(filename@),
                decoded@ == filename@,
                exact_name_index(names, filename@, 0) == names.len(),
                decoded_name_index(names, filename@, decoded@, 0) == decoded_name_index(
                    names,
                    filename@,
                    decoded@,
                    i as int,
                ),
            decreases n - i,
        {
            let name = zip_name_at(archive, i);
            if let Some(name) = name {
                let entry_decoded = url_decode(name.as_str());
                if entry_decoded.as_str().eq(filename) || entry_decoded.eq(&decoded) {
                    proof {
                        assert(decoded_name_index(names, filename@, decoded@, i as int) == i);
                    }
                    return Some(i);
                }
            }
            i = i + 1;
        }
        None
    }
}

} // verus!
