//! The manifest generator: produces the declarative orchestration document
//! for one instance from its name, version, variant and allocated port.
//!
//! Generation is deterministic — the output is a pure function of the
//! inputs, with no timestamps and no randomness — so that the same request
//! always yields a byte-identical document.

use vstd::prelude::*;

verus! {

/// The port the service listens on inside its container, to which the
/// allocated host port is mapped.
pub const CANONICAL_PORT: i64 = 25565;

/// The digit character of `d`.
pub open spec fn dec_digit(d: int) -> char {
    if d == 0 {
        '0'
    } else if d == 1 {
        '1'
    } else if d == 2 {
        '2'
    } else if d == 3 {
        '3'
    } else if d == 4 {
        '4'
    } else if d == 5 {
        '5'
    } else if d == 6 {
        '6'
    } else if d == 7 {
        '7'
    } else if d == 8 {
        '8'
    } else {
        '9'
    }
}

/// The decimal representation of a nonnegative integer, most significant
/// digit first, without leading zeros (a single `'0'` for zero).
pub open spec fn dec_rep(n: int) -> Seq<char>
    decreases n,
{
    if n <= 9 {
        seq![dec_digit(n)]
    } else {
        dec_rep(n / 10).push(dec_digit(n % 10))
    }
}

/// The decimal digit `d` as a one-character string.
fn digit_str(d: i64) -> (r: &'static str)
    requires
        0 <= d <= 9,
    ensures
        r@ =~= seq![dec_digit(d as int)],
{
    proof {
        reveal_strlit("0");
        reveal_strlit("1");
        reveal_strlit("2");
        reveal_strlit("3");
        reveal_strlit("4");
        reveal_strlit("5");
        reveal_strlit("6");
        reveal_strlit("7");
        reveal_strlit("8");
        reveal_strlit("9");
    }
    if d == 0 {
        "0"
    } else if d == 1 {
        "1"
    } else if d == 2 {
        "2"
    } else if d == 3 {
        "3"
    } else if d == 4 {
        "4"
    } else if d == 5 {
        "5"
    } else if d == 6 {
        "6"
    } else if d == 7 {
        "7"
    } else if d == 8 {
        "8"
    } else {
        "9"
    }
}

/// The decimal text of a nonnegative number.
pub fn dec_string(n: i64) -> (r: String)
    requires
        0 <= n,
    ensures
        r@ == dec_rep(n as int),
    decreases n,
{
    if n <= 9 {
        digit_str(n).to_owned()
    } else {
        let mut s = dec_string(n / 10);
        s.append(digit_str(n % 10));
        proof {
            assert(s@ =~= dec_rep(n as int));
        }
        s
    }
}

/// The full manifest document for one instance. The service is keyed by the
/// instance's normalized name; the allocated host port is mapped to the
/// canonical service port; the environment declares the acceptance flag, the
/// administrator identity, the requested version when one was given, and the
/// variant; a volume binding keeps the instance's data.
pub open spec fn manifest_text(
    name: Seq<char>,
    version: Option<Seq<char>>,
    difficulty: Seq<char>,
    port: int,
    admin: Seq<char>,
) -> Seq<char> {
    "services:\n  "@ + name
        + ":\n    image: itzg/minecraft-server\n    tty: true\n    stdin_open: true\n    ports:\n    - \""@
        + dec_rep(port) + ":25565\"\n    environment:\n      EULA: \"TRUE\"\n      OPS: \""@ + admin
        + "\"\n"@ + (match version {
        Some(v) => "      VERSION: \""@ + v + "\"\n"@,
        None => Seq::<char>::empty(),
    }) + "      DIFFICULTY: \""@ + difficulty + "\"\n    volumes:\n    - ./data:/data\n"@
}

/// Generates the manifest document for one instance.
pub fn generate(
    name: &String,
    version: Option<&String>,
    difficulty: &String,
    port: i64,
    admin: &String,
) -> (r: String)
    requires
        0 <= port,
    ensures
        r@ == manifest_text(
            name@,
            match version {
                Some(v) => Some(v@),
                None => None,
            },
            difficulty@,
            port as int,
            admin@,
        ),
{
    let mut s = "services:\n  ".to_owned();
    s.append(name.as_str());
    s.append(
        ":\n    image: itzg/minecraft-server\n    tty: true\n    stdin_open: true\n    ports:\n    - \"",
    );
    let port_text = dec_string(port);
    s.append(port_text.as_str());
    s.append(":25565\"\n    environment:\n      EULA: \"TRUE\"\n      OPS: \"");
    s.append(admin.as_str());
    s.append("\"\n");
    if let Some(v) = version {
        s.append("      VERSION: \"");
        s.append(v.as_str());
        s.append("\"\n");
    }
    s.append("      DIFFICULTY: \"");
    s.append(difficulty.as_str());
    s.append("\"\n    volumes:\n    - ./data:/data\n");
    proof {
        assert(s@ =~= manifest_text(
            name@,
            match version {
                Some(v) => Some(v@),
                None => None::<Seq<char>>,
            },
            difficulty@,
            port as int,
            admin@,
        ));
    }
    s
}

/// Manifest generation is deterministic: two documents generated from
/// identical inputs are byte-identical.
pub proof fn lemma_manifest_deterministic(
    name: Seq<char>,
    version: Option<Seq<char>>,
    difficulty: Seq<char>,
    port: int,
    admin: Seq<char>,
    m1: Seq<char>,
    m2: Seq<char>,
)
    requires
        m1 == manifest_text(name, version, difficulty, port, admin),
        m2 == manifest_text(name, version, difficulty, port, admin),
    ensures
        m1 == m2,
{
}

/// The working directory of an instance, derived from its stable id alone.
pub open spec fn work_dir_of(id: int) -> Seq<char> {
    "worlds/"@ + dec_rep(id)
}

/// The working directory path of the instance with id `id`.
pub fn work_dir_string(id: i64) -> (r: String)
    requires
        0 <= id,
    ensures
        r@ == work_dir_of(id as int),
{
    let mut s = "worlds/".to_owned();
    let id_text = dec_string(id);
    s.append(id_text.as_str());
    s
}

} // verus!
