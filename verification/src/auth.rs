//! The authentication handshake: extracting the credential line from the
//! receive buffer, splitting it into username and ticket, shaping the
//! verification request, and judging the service's answer.
use vstd::prelude::*;

use crate::buffer::ByteQueue;
use crate::num::{digits_val, is_ascii_digit, is_decimal};

verus! {

/// ASCII `'\n'`: the credential line terminator.
pub const NEWLINE: u8 = 10;
/// ASCII `':'`: the separator between username and ticket.
pub const CRED_SEP: u8 = 58;

/// Removes the first line from the buffer, if a terminator has arrived:
/// the returned bytes are the exact prefix before the first newline, and
/// the newline itself is discarded. Without a terminator nothing changes.
pub fn extract_line(buf: &mut ByteQueue) -> (r: Option<Vec<u8>>)
    requires
        old(buf).wf(),
    ensures
        final(buf).wf(),
        final(buf).cap() == old(buf).cap(),
        match r {
            Some(line) => {
                &&& line@.len() < old(buf)@.len()
                &&& line@ == old(buf)@.take(line@.len() as int)
                &&& (forall|j: int| 0 <= j < line@.len() ==> old(buf)@[j] != NEWLINE)
                &&& old(buf)@[line@.len() as int] == NEWLINE
                &&& final(buf)@ == old(buf)@.skip(line@.len() as int + 1)
            },
            None => {
                &&& final(buf)@ == old(buf)@
                &&& forall|j: int| 0 <= j < old(buf)@.len() ==> old(buf)@[j] != NEWLINE
            },
        },
{
    match buf.find_byte(NEWLINE, 0) {
        Some(i) => {
            let line = buf.remove_data(i);
            buf.consume(1);
            assert(final(buf)@ =~= old(buf)@.skip(line@.len() as int + 1));
            Some(line)
        },
        None => None,
    }
}

/// Splits a credential line at the first `:` into username and ticket; the
/// ticket is everything after that separator, verbatim, further separators
/// included. A line with no separator is invalid.
pub fn split_credentials(line: &[u8]) -> (r: Option<(Vec<u8>, Vec<u8>)>)
    ensures
        match r {
            Some(parts) => {
                &&& parts.0@.len() + 1 + parts.1@.len() == line@.len()
                &&& parts.0@ == line@.take(parts.0@.len() as int)
                &&& (forall|j: int| 0 <= j < parts.0@.len() ==> line@[j] != CRED_SEP)
                &&& line@[parts.0@.len() as int] == CRED_SEP
                &&& parts.1@ == line@.skip(parts.0@.len() as int + 1)
            },
            None => forall|j: int| 0 <= j < line@.len() ==> line@[j] != CRED_SEP,
        },
{
    let len = line.len();
    let mut i: usize = 0;
    while i < len
        invariant
            i <= len,
            len == line@.len(),
            forall|j: int| 0 <= j < i ==> line@[j] != CRED_SEP,
        decreases len - i,
    {
        if line[i] == CRED_SEP {
            let mut user: Vec<u8> = Vec::new();
            let mut k: usize = 0;
            while k < i
                invariant
                    k <= i < len,
                    len == line@.len(),
                    user@ == line@.subrange(0, k as int),
                decreases i - k,
            {
                let b = line[k];
                user.push(b);
                k += 1;
            }
            let mut ticket: Vec<u8> = Vec::new();
            let mut m: usize = i + 1;
            while m < len
                invariant
                    i + 1 <= m <= len,
                    len == line@.len(),
                    ticket@ == line@.subrange(i + 1, m as int),
                decreases len - m,
            {
                let b = line[m];
                ticket.push(b);
                m += 1;
            }
            assert(user@ =~= line@.take(i as int));
            assert(ticket@ =~= line@.skip(i + 1));
            return Some((user, ticket));
        }
        i += 1;
    }
    None
}

/// The decimal rendering of a number, most significant digit first.
pub open spec fn dec_bytes(n: nat) -> Seq<u8>
    decreases n,
{
    if n < 10 {
        seq![(48 + n) as u8]
    } else {
        dec_bytes(n / 10) + seq![(48 + n % 10) as u8]
    }
}

/// A rendered number is a valid decimal token and reads back as itself.
pub proof fn lemma_dec_bytes_roundtrip(n: nat)
    ensures
        is_decimal(dec_bytes(n)),
        digits_val(dec_bytes(n)) == n,
    decreases n,
{
    if n < 10 {
        let d = dec_bytes(n);
        assert(d.drop_last() =~= Seq::<u8>::empty());
        assert(digits_val(Seq::<u8>::empty()) == 0);
        assert(d.last() == (48 + n) as u8);
        assert(digits_val(d) == digits_val(d.drop_last()) * 10 + (d.last() - 48) as nat);
        assert(is_ascii_digit(d[0]));
    } else {
        lemma_dec_bytes_roundtrip(n / 10);
        let d = dec_bytes(n);
        assert(d.drop_last() =~= dec_bytes(n / 10));
        assert(d.last() == (48 + n % 10) as u8);
        assert(is_ascii_digit(d.last()));
        vstd::arithmetic::div_mod::lemma_fundamental_div_mod(n as int, 10);
        assert(n == 10 * (n / 10) + (n % 10));
        assert(digits_val(d) == digits_val(dec_bytes(n / 10)) * 10 + (n % 10));
        assert(forall|i: int| 0 <= i < d.len() ==> is_ascii_digit(d[i]));
    }
}

/// Renders a port number as decimal ASCII.
pub fn port_to_dec(n: u16) -> (r: Vec<u8>)
    ensures
        r@ == dec_bytes(n as nat),
    decreases n,
{
    if n < 10 {
        let mut v: Vec<u8> = Vec::new();
        v.push(48 + (n as u8));
        assert(v@ =~= dec_bytes(n as nat));
        v
    } else {
        let mut v = port_to_dec(n / 10);
        v.push(48 + ((n % 10) as u8));
        assert(v@ =~= dec_bytes((n / 10) as nat) + seq![(48 + (n as nat) % 10) as u8]);
        v
    }
}

/// The verification request: the form fields handed to the ticket service.
/// The ticket is presented as the password; the permission field and the
/// bound-port field are present exactly when the caller supplied them.
pub struct AuthForm {
    pub username: Vec<u8>,
    pub password: Vec<u8>,
    pub path: Vec<u8>,
    pub privs: Option<Vec<u8>>,
    pub port: Option<Vec<u8>>,
}

/// Builds the verification request from the credentials and configuration:
/// username and ticket verbatim, the configured resource path, the
/// permission if one is required, and the bound port (rendered as decimal)
/// if the listening port was dynamically chosen.
pub fn build_auth_form(
    username: Vec<u8>,
    ticket: Vec<u8>,
    path: Vec<u8>,
    perm: Option<Vec<u8>>,
    port: Option<u16>,
) -> (f: AuthForm)
    ensures
        f.username@ == username@,
        f.password@ == ticket@,
        f.path@ == path@,
        f.privs == perm,
        match (f.port, port) {
            (Some(rendered), Some(p)) => rendered@ == dec_bytes(p as nat),
            (None, None) => true,
            _ => false,
        },
{
    let rendered_port = match port {
        Some(p) => Some(port_to_dec(p)),
        None => None,
    };
    AuthForm { username, password: ticket, path, privs: perm, port: rendered_port }
}

/// The authentication decision: success is exactly HTTP status 200; any
/// other status or a transport failure refuses the connection.
pub fn auth_ok(status: u16) -> (r: bool)
    ensures
        r == (status == 200),
{
    status == 200
}

/// The literal two-byte acknowledgment written to the client on success,
/// before any further protocol exchange.
pub fn ok_ack() -> (r: Vec<u8>)
    ensures
        r@ == seq![79u8, 75u8],
{
    let mut v: Vec<u8> = Vec::new();
    v.push(79);
    v.push(75);
    assert(v@ =~= seq![79u8, 75u8]);
    v
}

} // verus!
