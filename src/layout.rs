use vstd::prelude::*;
use vstd::string::*;

use crate::dir_config::{join_path, join_spec};
use crate::stats::InterpretationStats;

verus! {

pub const VAULT_DIR_NAME: &'static str = "vault";

pub const PREV_DATA_DIR_NAME: &'static str = "prev_data";

pub const ANOMALY_DIR_NAME: &'static str = "anomaly";

/// The decimal digits of `n`, most significant first.
pub open spec fn decimal(n: nat) -> Seq<char>
    decreases n,
{
    if n < 10 {
        seq![digit(n)]
    } else {
        decimal(n / 10).push(digit(n % 10))
    }
}

pub open spec fn digit(d: nat) -> char {
    if d == 0 {
        '0'
    } else if d == 1 {
        '1'
    } else if d == 2 {
        '2'
    } else if d == 3 {
        '3'
    } else if d == 4 {
        '4'
    } else if d == 5 {
        '5'
    } else if d == 6 {
        '6'
    } else if d == 7 {
        '7'
    } else if d == 8 {
        '8'
    } else {
        '9'
    }
}

fn digit_str(d: u64) -> (r: &'static str)
    requires
        d < 10,
    ensures
        r@ == seq![digit(d as nat)],
{
    proof {
        reveal_strlit("0");
        reveal_strlit("1");
        reveal_strlit("2");
        reveal_strlit("3");
        reveal_strlit("4");
        reveal_strlit("5");
        reveal_strlit("6");
        reveal_strlit("7");
        reveal_strlit("8");
        reveal_strlit("9");
    }
    let r = if d == 0 {
        "0"
    } else if d == 1 {
        "1"
    } else if d == 2 {
        "2"
    } else if d == 3 {
        "3"
    } else if d == 4 {
        "4"
    } else if d == 5 {
        "5"
    } else if d == 6 {
        "6"
    } else if d == 7 {
        "7"
    } else if d == 8 {
        "8"
    } else {
        "9"
    };
    assert(r@ =~= seq![digit(d as nat)]);
    r
}

/// The decimal text of `n`.
pub fn decimal_string(n: u64) -> (r: String)
    ensures
        r@ == decimal(n as nat),
    decreases n,
{
    if n < 10 {
        String::from_str(digit_str(n))
    } else {
        let mut r = decimal_string(n / 10);
        r.append(digit_str(n % 10));
        r
    }
}

/// `${data_root}/vault/${particle_id}`: the particle's transient file area.
pub fn vault_dir(data_root: &String, particle_id: &String) -> (r: String)
    ensures
        r@ == join_spec(join_spec(data_root@, VAULT_DIR_NAME@), particle_id@),
{
    let vault = join_path(data_root, VAULT_DIR_NAME);
    join_path(&vault, particle_id.as_str())
}

/// `${data_root}/prev_data/${peer_id}/${particle_id}`: where a prev-data blob is kept.
pub fn prev_data_path(data_root: &String, peer_id: &String, particle_id: &String) -> (r: String)
    ensures
        r@ == join_spec(
            join_spec(join_spec(data_root@, PREV_DATA_DIR_NAME@), peer_id@),
            particle_id@,
        ),
{
    let base = join_path(data_root, PREV_DATA_DIR_NAME);
    let peer = join_path(&base, peer_id.as_str());
    join_path(&peer, particle_id.as_str())
}

/// `${data_root}/anomaly/${timestamp}-${particle_id}`: where a forensics bundle goes.
pub fn anomaly_dir(data_root: &String, timestamp: u64, particle_id: &String) -> (r: String)
    ensures
        r@ == join_spec(
            join_spec(data_root@, ANOMALY_DIR_NAME@),
            decimal(timestamp as nat) + seq!['-'] + particle_id@,
        ),
{
    let base = join_path(data_root, ANOMALY_DIR_NAME);
    let mut name = decimal_string(timestamp);
    proof {
        reveal_strlit("-");
    }
    name.append("-");
    name.append(particle_id.as_str());
    join_path(&base, name.as_str())
}

/// Whether a run is worth a forensics bundle: it failed, or the script ended with a
/// non-zero return code.
pub fn is_anomaly(stats: &InterpretationStats) -> (r: bool)
    ensures
        r == (!stats.success || stats.ret_code != 0),
{
    !stats.success || stats.ret_code != 0
}

} // verus!
