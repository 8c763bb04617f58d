//! Settings: the variables of the environment, handed in as a list of names and values.
use crate::json::opt_str;
use crate::text::{
    ascii_lower, copy_text, parse_i32, parse_u64, parse_usize, same_ignoring_case, same_text, signed_value, unsigned_value,
};
use vstd::prelude::*;

verus! {

/// The names and the values of a list of settings.
pub open spec fn setting_views(v: Seq<(String, String)>) -> Seq<(Seq<char>, Seq<char>)> {
    v.map_values(|s: (String, String)| (s.0@, s.1@))
}

/// The value of the first setting of a name.
pub open spec fn setting(env: Seq<(Seq<char>, Seq<char>)>, name: Seq<char>) -> Option<Seq<char>>
    decreases env.len(),
{
    if env.len() == 0 {
        None
    } else if env[0].0 == name {
        Some(env[0].1)
    } else {
        setting(env.skip(1), name)
    }
}

/// A setting that is a size; another value stands for the default.
pub open spec fn size_setting(env: Seq<(Seq<char>, Seq<char>)>, name: Seq<char>, d: usize) -> usize {
    match setting(env, name) {
        Some(s) => match unsigned_value(s, usize::MAX as nat) {
            Some(n) => n as usize,
            None => d,
        },
        None => d,
    }
}

/// A setting that is a number; another value stands for the default.
pub open spec fn number_setting(env: Seq<(Seq<char>, Seq<char>)>, name: Seq<char>, d: u64) -> u64 {
    match setting(env, name) {
        Some(s) => match unsigned_value(s, u64::MAX as nat) {
            Some(n) => n as u64,
            None => d,
        },
        None => d,
    }
}

/// A setting that is a switch: on where it is a number other than zero; what is no number
/// stands for the default.
pub open spec fn switch_setting(env: Seq<(Seq<char>, Seq<char>)>, name: Seq<char>, d: bool) -> bool {
    match setting(env, name) {
        Some(s) => match signed_value(s, i32::MIN as int, i32::MAX as int) {
            Some(n) => n != 0,
            None => d,
        },
        None => d,
    }
}

/// The value of a setting, or a text in its place.
pub open spec fn text_setting(env: Seq<(Seq<char>, Seq<char>)>, name: Seq<char>, d: Seq<char>) -> Seq<char> {
    match setting(env, name) {
        Some(s) => s,
        None => d,
    }
}

/// The value of a setting.
pub fn read_setting<'a>(env: &'a Vec<(String, String)>, name: &str) -> (r: Option<&'a str>)
    ensures
        opt_str(r) == setting(setting_views(env@), name@),
{
    let ghost all = setting_views(env@);
    let mut i: usize = 0;
    assert(all.skip(0) =~= all);
    while i < env.len()
        invariant
            i <= env.len(),
            all == setting_views(env@),
            setting(all, name@) == setting(all.skip(i as int), name@),
        decreases env.len() - i,
    {
        assert(all.skip(i as int)[0] == (env@[i as int].0@, env@[i as int].1@));
        if same_text(env[i].0.as_str(), name) {
            return Some(env[i].1.as_str());
        }
        assert(all.skip(i as int).skip(1) =~= all.skip(i + 1));
        i += 1;
    }
    None
}

/// A setting that is a size.
pub fn read_size(env: &Vec<(String, String)>, name: &str, d: usize) -> (r: usize)
    ensures
        r == size_setting(setting_views(env@), name@, d),
{
    match read_setting(env, name) {
        Some(s) => match parse_usize(s) {
            Some(n) => n,
            None => d,
        },
        None => d,
    }
}

/// A setting that is a number.
pub fn read_number(env: &Vec<(String, String)>, name: &str, d: u64) -> (r: u64)
    ensures
        r == number_setting(setting_views(env@), name@, d),
{
    match read_setting(env, name) {
        Some(s) => match parse_u64(s) {
            Some(n) => n,
            None => d,
        },
        None => d,
    }
}

/// A setting that is a switch.
pub fn read_switch(env: &Vec<(String, String)>, name: &str, d: bool) -> (r: bool)
    ensures
        r == switch_setting(setting_views(env@), name@, d),
{
    match read_setting(env, name) {
        Some(s) => match parse_i32(s) {
            Some(n) => n != 0,
            None => d,
        },
        None => d,
    }
}

/// The value of a setting, or a text in its place.
pub fn read_text(env: &Vec<(String, String)>, name: &str, d: &str) -> (r: String)
    ensures
        r@ == text_setting(setting_views(env@), name@, d@),
{
    match read_setting(env, name) {
        Some(s) => copy_text(s),
        None => copy_text(d),
    }
}

/// Whether a setting is `1` or `true`, in any case of its letters; a default where it is
/// not set.
pub open spec fn flag_setting_or(env: Seq<(Seq<char>, Seq<char>)>, name: Seq<char>, d: bool) -> bool {
    match setting(env, name) {
        Some(v) => v == "1"@ || ascii_lower(v) == ascii_lower("true"@),
        None => d,
    }
}

/// Whether a setting is `1` or `true`, in any case of its letters.
pub open spec fn flag_setting(env: Seq<(Seq<char>, Seq<char>)>, name: Seq<char>) -> bool {
    flag_setting_or(env, name, false)
}

/// Whether a setting is `1` or `true`; a default where it is not set.
pub fn read_flag_or(env: &Vec<(String, String)>, name: &str, d: bool) -> (r: bool)
    ensures
        r == flag_setting_or(setting_views(env@), name@, d),
{
    match read_setting(env, name) {
        Some(v) => same_text(v, "1") || same_ignoring_case(v, "true"),
        None => d,
    }
}

/// Whether a setting is `1` or `true`, in any case of its letters.
pub fn read_flag(env: &Vec<(String, String)>, name: &str) -> (r: bool)
    ensures
        r == flag_setting(setting_views(env@), name@),
{
    read_flag_or(env, name, false)
}

// ---------------------------------------------------------------------------
// What settings mean

/// A setting has the value of the first entry of its name; without one it is not set.
pub proof fn law_setting(env: Seq<(Seq<char>, Seq<char>)>, name: Seq<char>, i: int)
    ensures
        0 <= i < env.len() && env[i].0 == name && (forall|k: int| 0 <= k < i ==> (#[trigger] env[k]).0 != name)
            ==> setting(env, name) == Some(env[i].1),
        (forall|k: int| 0 <= k < env.len() ==> (#[trigger] env[k]).0 != name) ==> setting(env, name) is None,
    decreases env.len(),
{
    if env.len() > 0 {
        let rest = env.skip(1);
        law_setting(rest, name, i - 1);
        if forall|k: int| 0 <= k < i ==> (#[trigger] env[k]).0 != name {
            assert forall|k: int| 0 <= k < i - 1 && k < rest.len() implies (#[trigger] rest[k]).0 != name by {
                assert(env[k + 1].0 != name);
            }
            if 0 < i < env.len() {
                assert(env[0].0 != name);
                assert(rest[i - 1] == env[i]);
                assert forall|k: int| 0 <= k < i - 1 implies (#[trigger] rest[k]).0 != name by {}
            }
        }
        if forall|k: int| 0 <= k < env.len() ==> (#[trigger] env[k]).0 != name {
            assert(env[0].0 != name);
            assert forall|k: int| 0 <= k < rest.len() implies (#[trigger] rest[k]).0 != name by {
                assert(rest[k] == env[k + 1]);
            }
        }
    }
}

/// A switch is on for every number but zero, and as it is by default where it is not set to a
/// number.
pub proof fn law_switch(env: Seq<(Seq<char>, Seq<char>)>, name: Seq<char>, d: bool, t: Seq<char>, n: int)
    ensures
        setting(env, name) is None ==> switch_setting(env, name, d) == d,
        setting(env, name) == Some(t) && signed_value(t, i32::MIN as int, i32::MAX as int) == Some(0int)
            ==> !switch_setting(env, name, d),
        n != 0 && setting(env, name) == Some(t) && signed_value(t, i32::MIN as int, i32::MAX as int) == Some(n)
            ==> switch_setting(env, name, d),
        setting(env, name) == Some(t) && signed_value(t, i32::MIN as int, i32::MAX as int) is None ==> switch_setting(
            env,
            name,
            d,
        ) == d,
{
}

/// A flag is on where it is set to one, or to true in whatever case, and off where it is set to
/// anything else.
pub proof fn law_flag(env: Seq<(Seq<char>, Seq<char>)>, name: Seq<char>, d: bool, t: Seq<char>)
    ensures
        setting(env, name) is None ==> flag_setting_or(env, name, d) == d && !flag_setting(env, name),
        setting(env, name) == Some("1"@) ==> flag_setting_or(env, name, d),
        setting(env, name) == Some(t) && ascii_lower(t) == ascii_lower("true"@) ==> flag_setting_or(env, name, d),
        setting(env, name) == Some(t) && t != "1"@ && ascii_lower(t) != ascii_lower("true"@) ==> !flag_setting_or(
            env,
            name,
            d,
        ),
{
}

/// A size or a number is the one that was set, and the usual one where none was, or none that is
/// a number.
pub proof fn law_numbers(env: Seq<(Seq<char>, Seq<char>)>, name: Seq<char>, d: usize, e: u64, t: Seq<char>, n: nat)
    ensures
        setting(env, name) is None ==> size_setting(env, name, d) == d && number_setting(env, name, e) == e,
        n <= usize::MAX && setting(env, name) == Some(t) && unsigned_value(t, usize::MAX as nat) == Some(n)
            ==> size_setting(env, name, d) == n,
        n <= u64::MAX && setting(env, name) == Some(t) && unsigned_value(t, u64::MAX as nat) == Some(n) ==> number_setting(
            env,
            name,
            e,
        ) == n,
        setting(env, name) == Some(t) && unsigned_value(t, usize::MAX as nat) is None ==> size_setting(env, name, d) == d,
        setting(env, name) == Some(t) && unsigned_value(t, u64::MAX as nat) is None ==> number_setting(env, name, e) == e,
        setting(env, name) == Some(t) ==> text_setting(env, name, Seq::empty()) == t,
{
}

} // verus!
