//! The session-setup policy: which inherited environment variables the
//! spawned command keeps, and the fixed terminal-type override.
use vstd::prelude::*;

verus! {

/// The allow-list for the child environment: path, user identity, home
/// directory and the locale family; everything else is dropped.
pub open spec fn keep_env_spec(n: Seq<u8>) -> bool {
    ||| n == seq![80u8, 65u8, 84u8, 72u8]  // PATH
    ||| n == seq![85u8, 83u8, 69u8, 82u8]  // USER
    ||| n == seq![72u8, 79u8, 77u8, 69u8]  // HOME
    ||| n == seq![76u8, 65u8, 78u8, 71u8]  // LANG
    ||| n == seq![76u8, 65u8, 78u8, 71u8, 85u8, 65u8, 71u8, 69u8]  // LANGUAGE
    ||| (n.len() >= 3 && n.take(3) == seq![76u8, 67u8, 95u8])  // LC_*
}

/// Decides whether an inherited environment variable named `name` is
/// forwarded to the spawned command.
pub fn keep_env_var(name: &[u8]) -> (r: bool)
    ensures
        r == keep_env_spec(name@),
{
    let n = name.len();
    if n >= 3 && name[0] == 76 && name[1] == 67 && name[2] == 95 {
        proof {
            assert(name@.take(3) =~= seq![76u8, 67u8, 95u8]);
        }
        return true;
    }
    if n == 4 {
        let b0 = name[0];
        let b1 = name[1];
        let b2 = name[2];
        let b3 = name[3];
        if (b0 == 80 && b1 == 65 && b2 == 84 && b3 == 72)
            || (b0 == 85 && b1 == 83 && b2 == 69 && b3 == 82)
            || (b0 == 72 && b1 == 79 && b2 == 77 && b3 == 69)
            || (b0 == 76 && b1 == 65 && b2 == 78 && b3 == 71) {
            proof {
                assert(name@ =~= seq![name@[0], name@[1], name@[2], name@[3]]);
            }
            return true;
        }
        return false;
    }
    if n == 8 && name[0] == 76 && name[1] == 65 && name[2] == 78 && name[3] == 71
        && name[4] == 85 && name[5] == 65 && name[6] == 71 && name[7] == 69 {
        proof {
            assert(name@ =~= seq![
                name@[0], name@[1], name@[2], name@[3],
                name@[4], name@[5], name@[6], name@[7],
            ]);
        }
        return true;
    }
    false
}

/// The fixed terminal-type override set for the spawned command: the
/// variable name and its value, as bytes.
pub fn term_override() -> (r: (Vec<u8>, Vec<u8>))
    ensures
        r.0@ == seq![84u8, 69u8, 82u8, 77u8],  // TERM
        // xterm-256color
        r.1@ == seq![
            120u8, 116u8, 101u8, 114u8, 109u8, 45u8, 50u8, 53u8, 54u8, 99u8, 111u8, 108u8,
            111u8, 114u8,
        ],
{
    let mut k: Vec<u8> = Vec::new();
    k.push(84);
    k.push(69);
    k.push(82);
    k.push(77);
    let mut v: Vec<u8> = Vec::new();
    v.push(120);
    v.push(116);
    v.push(101);
    v.push(114);
    v.push(109);
    v.push(45);
    v.push(50);
    v.push(53);
    v.push(54);
    v.push(99);
    v.push(111);
    v.push(108);
    v.push(111);
    v.push(114);
    proof {
        assert(k@ =~= seq![84u8, 69u8, 82u8, 77u8]);
        assert(v@ =~= seq![
            120u8, 116u8, 101u8, 114u8, 109u8, 45u8, 50u8, 53u8, 54u8, 99u8, 111u8, 108u8,
            111u8, 114u8,
        ]);
    }
    (k, v)
}

} // verus!
