
use vstd::prelude::*;

use crate::coding::buf::{
    buf_bytes, buf_capacity_limit, buf_len, buf_new, buf_put_slice, buf_to_vec,
    encode_remaining, encoded, lemma_skip_skip,
};
use crate::coding::error::{DecodeError, EncodeError};
use crate::coding::integer::{decode_u64, encode_u64};
use crate::coding::params::{
    lemma_params_roundtrip, params_bytes, params_encodable, params_order, spec_decode_params,
    Params,
};
use crate::coding::varint::{lemma_varint_roundtrip, spec_decode_varint, varint_bound, varint_bytes};

use super::role::{lemma_role_roundtrip, role_code, spec_decode_role, Role};
use super::version::{
    lemma_versions_roundtrip, spec_decode_versions, versions_bytes, versions_encodable,
    Versions,
};

verus! {

broadcast use crate::coding::varint::lemma_decode_varint_len;

/// The type number that opens a client setup.
pub const CLIENT_SETUP_TYPE: u64 = 0x40;

/// The parameter key that carries the role.
pub const ROLE_PARAM: u64 = 0;

/// The parameter key of a path, which a WebTransport session must not carry.
pub const PATH_PARAM: u64 = 1;

/// Sent by the client to set up the session, at the head of the control stream.
#[derive(Debug)]
pub struct Client {
    /// The versions the client supports, most preferred first.
    pub versions: Versions,
    /// Whether the client publishes, subscribes, or both.
    pub role: Role,
    /// The other parameters.
    pub params: Params,
}

/// A client setup as plain data.
pub struct ClientView {
    pub versions: Seq<u64>,
    pub role: Role,
    pub params: Map<u64, Seq<u8>>,
}

impl View for Client {
    type V = ClientView;

    open spec fn view(&self) -> ClientView {
        ClientView { versions: self.versions@, role: self.role, params: self.params@ }
    }
}

/// The parameters as sent: the other parameters, with the role under its key.
pub open spec fn sent_params(c: ClientView) -> Map<u64, Seq<u8>> {
    c.params.insert(ROLE_PARAM, varint_bytes(role_code(c.role)))
}

/// The body of a client setup, with the parameters in the order `o`: the versions,
/// then the parameters.
pub open spec fn client_body(c: ClientView, o: Seq<(u64, Seq<u8>)>) -> Seq<u8> {
    versions_bytes(c.versions) + params_bytes(o)
}

/// The wire form: the type, the length of the body, then the body.
pub open spec fn client_bytes(c: ClientView, o: Seq<(u64, Seq<u8>)>) -> Seq<u8> {
    varint_bytes(CLIENT_SETUP_TYPE) + varint_bytes(client_body(c, o).len() as u64) + client_body(c, o)
}

/// The body can be built whatever order the parameters come in: every version and
/// parameter fits a variable-length integer and the body fits a buffer.
pub open spec fn client_encodable(c: ClientView) -> bool {
    &&& versions_encodable(c.versions)
    &&& forall|o: Seq<(u64, Seq<u8>)>|
        params_order(sent_params(c), o) ==> #[trigger] params_encodable(o) && client_body(c, o).len()
            <= buf_capacity_limit()
}

/// Decoding a client setup from the front of `s`: the type, which must be that of a
/// client setup; the length, which is not checked; the versions; the parameters. The
/// role is taken out of the parameters, and must be there; a path parameter is refused.
pub open spec fn spec_decode_client(s: Seq<u8>) -> Result<(ClientView, int), DecodeError> {
    match spec_decode_varint(s) {
        Ok((typ, n1)) => if typ != CLIENT_SETUP_TYPE {
            Err(DecodeError::InvalidMessage(typ))
        } else {
            match spec_decode_varint(s.skip(n1)) {
                Ok((len, n2)) => match spec_decode_versions(s.skip(n1 + n2)) {
                    Ok((vs, n3)) => match spec_decode_params(s.skip(n1 + n2 + n3)) {
                        Ok((m, n4)) => if !m.contains_key(ROLE_PARAM) {
                            Err(DecodeError::MissingParameter)
                        } else {
                            match spec_decode_role(m[ROLE_PARAM]) {
                                Ok((role, k)) => if m.contains_key(PATH_PARAM) {
                                    Err(DecodeError::InvalidParameter)
                                } else {
                                    Ok((ClientView { versions: vs, role, params: m.remove(ROLE_PARAM) }, n1 + n2 + n3 + n4))
                                },
                                Err(e) => Err(e),
                            }
                        },
                        Err(e) => Err(e),
                    },
                    Err(e) => Err(e),
                },
                Err(e) => Err(e),
            }
        },
        Err(e) => Err(e),
    }
}

/// Decoding what `Client::encode` writes gives back the same setup, the role taken out
/// of the parameters again, for every setup that can be encoded and carries no path.
pub proof fn lemma_client_roundtrip(c: ClientView, o: Seq<(u64, Seq<u8>)>, rest: Seq<u8>)
    requires
        client_encodable(c),
        params_order(sent_params(c), o),
        forall|k: u64| c.params.contains_key(k) ==> (#[trigger] c.params[k]).len() <= usize::MAX,
        !c.params.contains_key(PATH_PARAM),
        client_body(c, o).len() < varint_bound(),
    ensures
        spec_decode_client(client_bytes(c, o) + rest) == Ok::<(ClientView, int), DecodeError>(
            (
                ClientView { versions: c.versions, role: c.role, params: c.params.remove(ROLE_PARAM) },
                client_bytes(c, o).len() as int,
            ),
        ),
{
    let m = sent_params(c);
    let body = client_body(c, o);
    let t = varint_bytes(CLIENT_SETUP_TYPE);
    let l = varint_bytes(body.len() as u64);
    let vb = versions_bytes(c.versions);
    let pb = params_bytes(o);
    let s = client_bytes(c, o) + rest;
    assert(params_encodable(o));
    assert(s =~= t + (l + body + rest));
    lemma_varint_roundtrip(CLIENT_SETUP_TYPE, l + body + rest);
    let n1 = t.len() as int;
    assert(s.skip(n1) =~= l + (body + rest));
    lemma_varint_roundtrip(body.len() as u64, body + rest);
    let n2 = l.len() as int;
    assert(s.skip(n1 + n2) =~= vb + (pb + rest));
    lemma_versions_roundtrip(c.versions, pb + rest);
    let n3 = vb.len() as int;
    assert(s.skip(n1 + n2 + n3) =~= pb + rest);
    assert forall|k: u64| m.contains_key(k) implies (#[trigger] m[k]).len() <= usize::MAX by {
        if k != ROLE_PARAM {
            assert(c.params.contains_key(k));
        }
    }
    lemma_params_roundtrip(m, o, rest);
    lemma_role_roundtrip(c.role, Seq::empty());
    assert(varint_bytes(role_code(c.role)) + Seq::<u8>::empty() =~= varint_bytes(role_code(c.role)));
    assert(m.remove(ROLE_PARAM) =~= c.params.remove(ROLE_PARAM));
}

/// The parameter value that carries a role: its number.
fn role_value(role: Role) -> (v: Vec<u8>)
    ensures
        v@ == varint_bytes(role_code(role)),
{
    let mut buf = buf_new();
    let r = role.encode(&mut buf);
    assert(r is Ok);
    buf_to_vec(&buf)
}

impl Client {
    /// Appends the type, the length of the body, then the body: the versions, then the
    /// parameters with the role under its key (in the order the map yields them).
    pub fn encode(&self, w: &mut bytes::BytesMut) -> (res: Result<(), EncodeError>)
        requires
            client_encodable(self@),
        ensures
            exists|o: Seq<(u64, Seq<u8>)>|
                params_order(sent_params(self@), o) && encoded(
                    res,
                    buf_bytes(*old(w)),
                    buf_bytes(*final(w)),
                    client_body(self@, o).len() < varint_bound(),
                    client_bytes(self@, o),
                    EncodeError::BoundsExceeded,
                ),
    {
        let ghost c = self@;
        let ghost b0 = buf_bytes(*w);
        let mut params = Params(self.params.0.clone());
        params.0.insert(ROLE_PARAM, role_value(self.role));
        assert(params@ =~= sent_params(c));
        let mut buf = buf_new();
        let rv = self.versions.encode(&mut buf);
        let ghost v1 = buf_bytes(buf);
        let rp = params.encode(&mut buf);
        let ghost o: Seq<(u64, Seq<u8>)> = choose|o: Seq<(u64, Seq<u8>)>|
            params_order(params@, o) && o.len() == params@.dom().len() && encoded(
                rp,
                v1,
                buf_bytes(buf),
                params_encodable(o),
                params_bytes(o),
                EncodeError::BoundsExceeded,
            );
        assert(params_encodable(o) && client_body(c, o).len() <= buf_capacity_limit());
        assert(rv is Ok);
        assert(rp is Ok);
        assert(buf_bytes(buf) =~= client_body(c, o));
        let r1 = encode_u64(CLIENT_SETUP_TYPE, w);
        if r1.is_err() {
            proof {
                lemma_varint_roundtrip(CLIENT_SETUP_TYPE, Seq::empty());
            }
            return r1;
        }
        let ghost b1 = buf_bytes(*w);
        let len = buf_len(&buf);
        let r2 = encode_u64(len as u64, w);
        if r2.is_err() {
            return r2;
        }
        let ghost b2 = buf_bytes(*w);
        let content = buf_to_vec(&buf);
        let r3 = encode_remaining(w, content.len());
        if r3.is_err() {
            return r3;
        }
        buf_put_slice(w, content.as_slice());
        assert(buf_bytes(*w) =~= b0 + client_bytes(c, o));
        Ok(())
    }

    /// Reads a client setup (see `spec_decode_client`).
    pub fn decode(r: &mut bytes::BytesMut) -> (res: Result<Client, DecodeError>)
        ensures
            match spec_decode_client(buf_bytes(*old(r))) {
                Ok((c, n)) => res is Ok && res->Ok_0@ == c && buf_bytes(*final(r)) == buf_bytes(*old(r)).skip(n),
                Err(e) => res == Err::<Client, DecodeError>(e),
            },
    {
        let ghost s = buf_bytes(*r);
        let typ = decode_u64(r)?;
        if typ != CLIENT_SETUP_TYPE {
            return Err(DecodeError::InvalidMessage(typ));
        }
        let ghost s1 = buf_bytes(*r);
        let _len = decode_u64(r)?;
        let ghost s2 = buf_bytes(*r);
        proof {
            lemma_skip_skip(s, s.len() - s1.len(), s1.len() - s2.len());
        }
        let versions = Versions::decode(r)?;
        let ghost s3 = buf_bytes(*r);
        proof {
            lemma_skip_skip(s, s.len() - s2.len(), s2.len() - s3.len());
        }
        let mut params = Params::decode(r)?;
        let ghost s4 = buf_bytes(*r);
        proof {
            lemma_skip_skip(s, s.len() - s3.len(), s3.len() - s4.len());
        }
        let ghost m = params@;
        let role = match params.0.remove(&ROLE_PARAM) {
            Some(value) => Role::decode_from(value.as_slice())?,
            None => {
                return Err(DecodeError::MissingParameter);
            },
        };
        assert(params@ =~= m.remove(ROLE_PARAM));
        if params.has(PATH_PARAM) {
            return Err(DecodeError::InvalidParameter);
        }
        Ok(Client { versions, role, params })
    }
}

} // verus!
