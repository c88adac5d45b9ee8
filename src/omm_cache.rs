//! Where fetched orbital mean-elements messages are kept on disk.
use vstd::prelude::*;
use crate::text::{decimal, push_decimal};

verus! {

/// `base` and `part` joined by one `/`, unless `base` is empty or already
/// ends with `/`.
pub open spec fn path_join(base: Seq<char>, part: Seq<char>) -> Seq<char> {
    if base.len() == 0 || base.last() == '/' {
        base + part
    } else {
        base + seq!['/'] + part
    }
}

/// The cache file of the message of object `norad_id` from `source`, under
/// the cache directory `cache_dir`.
pub open spec fn omm_cache_path(cache_dir: Seq<char>, norad_id: nat, source: Seq<char>) -> Seq<char> {
    path_join(path_join(cache_dir, "omm_cache"@), decimal(norad_id) + "_"@ + source + ".json"@)
}

/// Appends `part` to `s` after one `/`, unless `s` is empty or already ends
/// with `/`.
fn push_path(s: &mut String, part: &str)
    ensures
        final(s)@ == path_join(old(s)@, part@),
{
    let needs_sep = if s.as_str().unicode_len() == 0 {
        false
    } else {
        let last = s.as_str().get_char(s.as_str().unicode_len() - 1);
        last != '/'
    };
    if needs_sep {
        s.append("/");
        proof {
            reveal_strlit("/");
        }
    }
    s.append(part);
    proof {
        assert(s@ =~= path_join(old(s)@, part@));
    }
}

/// The cache file of the message of object `norad_id` from `source`:
/// `<cache_dir>/omm_cache/<norad_id>_<source>.json`.
pub fn get_omm_cache_path(cache_dir: &str, norad_id: u32, source: &str) -> (r: String)
    ensures
        r@ == omm_cache_path(cache_dir@, norad_id as nat, source@),
{
    let mut path = String::from_str(cache_dir);
    push_path(&mut path, "omm_cache");
    let mut file = String::new();
    push_decimal(&mut file, norad_id as u64);
    file.append("_");
    file.append(source);
    file.append(".json");
    push_path(&mut path, file.as_str());
    path
}

} // verus!
