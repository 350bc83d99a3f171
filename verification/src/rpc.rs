//! The RPC dispatch fabric: a per-interface method router over the curated
//! subset of instances the interface exposes.
//!
//! The router multiplexes by instance id first, then by a capability and
//! function pair: a method `instance/capability/function` is forwarded into
//! the named instance's call entry point, and the reflective method
//! `info/instances` answers with the exposed instance ids. Anything else is
//! `MethodNotFound`; faults reported by the target instance are mapped to
//! `InternalError` with the instance-reported cause in the message.

use vstd::prelude::*;

use crate::context::clone_string_vec;
use crate::strutil::{seq_contains_str, str_eq, str_views, vec_contains_str};

verus! {

/// A method router for one interface: it exposes exactly the listed
/// instances, which the registry holds under the same ids.
#[derive(Debug, PartialEq, Eq)]
pub struct RpcRouter {
    pub instances: Vec<String>,
}

/// Where a JSON-RPC method resolves to.
#[derive(Debug, PartialEq, Eq)]
pub enum RpcDispatch {
    /// The reflective method `info/instances`: the exposed instance ids.
    InstanceList(Vec<String>),
    /// A namespaced call surface `instance/capability/function` of an
    /// exposed instance.
    CallForward { instance_id: String, capability: String, function: String },
    /// No exposed instance answers to this method.
    MethodNotFound,
}

/// A JSON-RPC level error.
#[derive(Debug, Clone, PartialEq, Eq)]
pub enum RpcError {
    MethodNotFound,
    InternalError { message: String },
}

/// `m` is `a`/`b`/`c` with slash-free parts.
pub open spec fn splits_method(m: Seq<char>, a: Seq<char>, b: Seq<char>, c: Seq<char>) -> bool {
    &&& m == a + seq!['/'] + b + seq!['/'] + c
    &&& !a.contains('/')
    &&& !b.contains('/')
    &&& !c.contains('/')
}

/// The shape a split forces on the whole method string: its length, where
/// its slashes are, and that it has no others.
pub proof fn lemma_split_shape(m: Seq<char>, a: Seq<char>, b: Seq<char>, c: Seq<char>)
    requires
        splits_method(m, a, b, c),
    ensures
        m.len() == a.len() + b.len() + c.len() + 2,
        m[a.len() as int] == '/',
        m[a.len() + b.len() + 1int] == '/',
        forall|i: int|
            0 <= i < m.len() && #[trigger] m[i] == '/' ==> i == a.len() || i == a.len() + b.len()
                + 1int,
{
    assert forall|i: int|
        0 <= i < m.len() && #[trigger] m[i] == '/' implies i == a.len() || i == a.len() + b.len()
        + 1 by {
        if i < a.len() {
            assert(a[i] == '/');
            assert(a.contains('/'));
        } else if a.len() + 1 <= i < a.len() + 1 + b.len() {
            assert(b[i - a.len() - 1] == '/');
            assert(b.contains('/'));
        } else if i > a.len() + b.len() + 1 {
            assert(c[i - a.len() - b.len() - 2] == '/');
            assert(c.contains('/'));
        }
    }
}

impl RpcRouter {
    /// Resolve a JSON-RPC method name. `info/instances` reflects the exposed
    /// ids; a method of the form `instance/capability/function` whose
    /// instance is exposed is forwarded; everything else is not found.
    pub fn dispatch_method(&self, method: &str) -> (r: RpcDispatch)
        ensures
            method@ == "info/instances"@ ==> (r matches RpcDispatch::InstanceList(ids) && ids@
                == self.instances@),
            r matches RpcDispatch::CallForward { instance_id, capability, function } ==> {
                &&& splits_method(method@, instance_id@, capability@, function@)
                &&& seq_contains_str(self.instances@, instance_id@)
                &&& method@ != "info/instances"@
            },
            (method@ != "info/instances"@ && exists|a: Seq<char>, b: Seq<char>, c: Seq<char>|
                splits_method(method@, a, b, c) && seq_contains_str(self.instances@, a)) ==> (
            r matches RpcDispatch::CallForward { .. }),
            r matches RpcDispatch::InstanceList(_) ==> method@ == "info/instances"@,
            (method@ != "info/instances"@ && !(exists|a: Seq<char>, b: Seq<char>, c: Seq<char>|
                splits_method(method@, a, b, c) && seq_contains_str(self.instances@, a))) ==> r
                is MethodNotFound,
    {
        if str_eq(method, "info/instances") {
            return RpcDispatch::InstanceList(clone_string_vec(&self.instances));
        }
        let len = method.unicode_len();
        let mut slashes: Vec<usize> = Vec::new();
        let mut i: usize = 0;
        while i < len
            invariant
                i <= len,
                len == method@.len(),
                forall|k: int| 0 <= k < slashes@.len() ==> #[trigger] slashes@[k] < i,
                forall|k: int|
                    0 <= k < slashes@.len() ==> method@[#[trigger] slashes@[k] as int] == '/',
                forall|k: int, l: int| 0 <= k < l < slashes@.len() ==> slashes@[k] < slashes@[l],
                forall|j: int|
                    0 <= j < i && #[trigger] method@[j] == '/' ==> slashes@.contains(j as usize),
            decreases len - i,
        {
            if method.get_char(i) == '/' {
                let ghost old_slashes = slashes@;
                slashes.push(i);
                proof {
                    assert(slashes@[slashes@.len() - 1] == i);
                    assert forall|j: int|
                        0 <= j < i + 1 && #[trigger] method@[j] == '/' implies slashes@.contains(
                        j as usize,
                    ) by {
                        if j < i {
                            let w = choose|w: int|
                                0 <= w < old_slashes.len() && old_slashes[w] == j as usize;
                            assert(slashes@[w] == j as usize);
                        } else {
                            assert(slashes@[slashes@.len() - 1] == j as usize);
                        }
                    }
                }
            }
            i += 1;
        }
        if slashes.len() != 2 {
            proof {
                if exists|a: Seq<char>, b: Seq<char>, c: Seq<char>|
                    splits_method(method@, a, b, c) && seq_contains_str(self.instances@, a) {
                    let (a, b, c) = choose|a: Seq<char>, b: Seq<char>, c: Seq<char>|
                        splits_method(method@, a, b, c) && seq_contains_str(self.instances@, a);
                    lemma_split_shape(method@, a, b, c);
                    let p1 = a.len() as int;
                    let p2 = a.len() + b.len() + 1;
                    assert(slashes@.contains(p1 as usize));
                    assert(slashes@.contains(p2 as usize));
                    if slashes@.len() < 2 {
                        let w1 = choose|w: int|
                            0 <= w < slashes@.len() && slashes@[w] == p1 as usize;
                        let w2 = choose|w: int|
                            0 <= w < slashes@.len() && slashes@[w] == p2 as usize;
                        assert(false);
                    } else {
                        assert(slashes@[0] == p1 as usize || slashes@[0] == p2 as usize);
                        assert(slashes@[1] == p1 as usize || slashes@[1] == p2 as usize);
                        assert(slashes@[2] == p1 as usize || slashes@[2] == p2 as usize);
                        assert(false);
                    }
                }
            }
            return RpcDispatch::MethodNotFound;
        }
        let s1 = slashes[0];
        let s2 = slashes[1];
        let inst = method.substring_char(0, s1).to_owned();
        let cap = method.substring_char(s1 + 1, s2).to_owned();
        let func = method.substring_char(s2 + 1, len).to_owned();
        proof {
            assert(method@ =~= inst@ + seq!['/'] + cap@ + seq!['/'] + func@);
            assert forall|j: int| 0 <= j < inst@.len() implies inst@[j] != '/' by {
                if method@[j] == '/' {
                    assert(slashes@.contains(j as usize));
                    let w = choose|w: int| 0 <= w < slashes@.len() && slashes@[w] == j as usize;
                }
            }
            assert(!inst@.contains('/'));
            assert forall|j: int| 0 <= j < cap@.len() implies cap@[j] != '/' by {
                if method@[s1 + 1 + j] == '/' {
                    assert(slashes@.contains((s1 + 1 + j) as usize));
                    let w = choose|w: int|
                        0 <= w < slashes@.len() && slashes@[w] == (s1 + 1 + j) as usize;
                }
            }
            assert(!cap@.contains('/'));
            assert forall|j: int| 0 <= j < func@.len() implies func@[j] != '/' by {
                if method@[s2 + 1 + j] == '/' {
                    assert(slashes@.contains((s2 + 1 + j) as usize));
                    let w = choose|w: int|
                        0 <= w < slashes@.len() && slashes@[w] == (s2 + 1 + j) as usize;
                }
            }
            assert(!func@.contains('/'));
            assert(splits_method(method@, inst@, cap@, func@));
        }
        let exposed = vec_contains_str(&self.instances, method.substring_char(0, s1));
        if exposed {
            proof {
                assert(splits_method(method@, inst@, cap@, func@) && seq_contains_str(
                    self.instances@,
                    inst@,
                ));
            }
            RpcDispatch::CallForward { instance_id: inst, capability: cap, function: func }
        } else {
            proof {
                assert forall|a: Seq<char>, b: Seq<char>, c: Seq<char>|
                    splits_method(method@, a, b, c) implies a == inst@ by {
                    lemma_split_shape(method@, a, b, c);
                    lemma_split_shape(method@, inst@, cap@, func@);
                    assert(slashes@.contains(a.len() as usize));
                    let w = choose|w: int|
                        0 <= w < slashes@.len() && slashes@[w] == a.len() as usize;
                    assert(a.len() == s1 || a.len() == s2);
                    if a.len() == s2 {
                        assert(method@[s1 as int] == '/');
                        assert(s1 == a.len() || s1 == a.len() + b.len() + 1);
                        assert(false);
                    }
                    assert(a =~= inst@);
                }
            }
            RpcDispatch::MethodNotFound
        }
    }
}

/// The body of a JSON array of strings: the ids, each in double quotes,
/// separated by commas.
pub open spec fn json_id_array_body(ids: Seq<Seq<char>>) -> Seq<char>
    decreases ids.len(),
{
    if ids.len() == 0 {
        Seq::<char>::empty()
    } else if ids.len() == 1 {
        seq!['"'] + ids[0] + seq!['"']
    } else {
        seq!['"'] + ids[0] + seq!['"', ','] + json_id_array_body(ids.skip(1))
    }
}

/// The whole JSON-RPC response to `info/instances`: the exposed ids as a
/// JSON array under `result`, echoing the request id.
pub open spec fn info_instances_response(ids: Seq<Seq<char>>, request_id: Seq<char>) -> Seq<char> {
    "{\"jsonrpc\":\"2.0\",\"result\":["@ + json_id_array_body(ids) + "],\"id\":"@ + request_id
        + "}"@
}

impl RpcRouter {
    /// Render the reflective answer to `info/instances` as its JSON-RPC
    /// response, echoing the request id text.
    pub fn info_instances_response(&self, request_id: &str) -> (r: String)
        ensures
            r@ == info_instances_response(str_views(self.instances@), request_id@),
    {
        let mut body = String::new();
        let mut k: usize = 0;
        while k < self.instances.len()
            invariant
                k <= self.instances@.len(),
                body@ == json_id_array_body(str_views(self.instances@).subrange(0, k as int)),
                k > 0 ==> str_views(self.instances@).subrange(0, k as int).len() > 0,
            decreases self.instances@.len() - k,
        {
            let ghost pre = str_views(self.instances@).subrange(0, k as int);
            let ghost post = str_views(self.instances@).subrange(0, k + 1);
            if k > 0 {
                body.append(",");
            }
            body.append("\"");
            body.append(self.instances[k].as_str());
            body.append("\"");
            proof {
                reveal_strlit(",");
                reveal_strlit("\"");
                lemma_json_body_snoc(str_views(self.instances@), k as int);
                assert(post[k as int] == self.instances@[k as int]@);
                assert(pre =~= post.subrange(0, k as int));
            }
            k += 1;
        }
        proof {
            assert(str_views(self.instances@).subrange(0, self.instances@.len() as int)
                =~= str_views(self.instances@));
        }
        let mut r = String::from_str("{\"jsonrpc\":\"2.0\",\"result\":[");
        r.append(body.as_str());
        r.append("],\"id\":");
        r.append(request_id);
        r.append("}");
        r
    }
}

/// Rendering one more id appends a comma (after the first) and the quoted id.
proof fn lemma_json_body_snoc(ids: Seq<Seq<char>>, k: int)
    requires
        0 <= k < ids.len(),
    ensures
        k == 0 ==> json_id_array_body(ids.subrange(0, 1)) == seq!['"'] + ids[0] + seq!['"'],
        k > 0 ==> json_id_array_body(ids.subrange(0, k + 1)) == json_id_array_body(
            ids.subrange(0, k),
        ) + seq![','] + seq!['"'] + ids[k] + seq!['"'],
    decreases k,
{
    if k == 0 {
        assert(ids.subrange(0, 1).len() == 1);
        assert(ids.subrange(0, 1)[0] == ids[0]);
    } else {
        lemma_json_body_snoc(ids, k - 1);
        lemma_json_body_step(ids.subrange(0, k + 1), ids.subrange(0, k));
    }
}

/// Peeling the first id off a nonempty rendering.
proof fn lemma_json_body_step(long: Seq<Seq<char>>, short: Seq<Seq<char>>)
    requires
        short.len() >= 1,
        long.len() == short.len() + 1,
        forall|j: int| 0 <= j < short.len() ==> long[j] == short[j],
    ensures
        json_id_array_body(long) == json_id_array_body(short) + seq![','] + seq!['"'] + long[
            long.len() - 1] + seq!['"'],
    decreases short.len(),
{
    if short.len() == 1 {
        assert(long.skip(1) =~= seq![long[1]]);
        assert(json_id_array_body(long.skip(1)) == seq!['"'] + long[1] + seq!['"']);
        assert(json_id_array_body(long) =~= json_id_array_body(short) + seq![','] + seq!['"']
            + long[1] + seq!['"']);
    } else {
        lemma_json_body_step(long.skip(1), short.skip(1));
        assert(long.skip(1)[long.skip(1).len() - 1] == long[long.len() - 1]);
        assert(json_id_array_body(long) =~= json_id_array_body(short) + seq![','] + seq!['"']
            + long[long.len() - 1] + seq!['"']);
    }
}

/// Map what a target instance returned to the JSON-RPC envelope: successes
/// pass through, instance-reported faults become `InternalError` carrying
/// the cause.
pub fn call_outcome(result: Result<String, String>) -> (r: Result<String, RpcError>)
    ensures
        result matches Ok(v) ==> (r matches Ok(w) && w == v),
        result matches Err(m) ==> (r matches Err(e) && e == (RpcError::InternalError {
            message: m,
        })),
{
    match result {
        Ok(v) => Ok(v),
        Err(message) => Err(RpcError::InternalError { message }),
    }
}

} // verus!
