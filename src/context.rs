use vstd::prelude::*;
use vstd::utf8::encode_utf8;

verus! {

/// Configuration shared by every request, read-only once the server runs.
pub struct ServerContext {
    /// The value the `Auth` header must hold, byte for byte.
    pub auth_token: String,
}

impl ServerContext {
    pub fn new(auth: String) -> (r: ServerContext)
        ensures
            r.auth_token == auth,
    {
        ServerContext { auth_token: auth }
    }

    /// Accepts a caller whose `Auth` header is exactly the configured token.
    pub fn is_authed(&self, auth: &[u8]) -> (r: Result<(), String>)
        ensures
            r is Ok <==> auth@ == encode_utf8(self.auth_token@),
            r matches Err(e) ==> e@ == "Token Invalid"@,
    {
        let token = self.auth_token.as_str().as_bytes();
        let mut same = token.len() == auth.len();
        let mut i: usize = 0;
        while same && i < token.len()
            invariant
                token@ == encode_utf8(self.auth_token@),
                i <= token@.len(),
                same ==> token@.len() == auth@.len(),
                same ==> token@.subrange(0, i as int) == auth@.subrange(0, i as int),
                !same ==> token@ != auth@,
            decreases token@.len() - i + if same { 1int } else { 0int },
        {
            if token[i] != auth[i] {
                same = false;
            } else {
                assert(token@.subrange(0, i + 1) =~= token@.subrange(0, i as int).push(token@[i as int]));
                assert(auth@.subrange(0, i + 1) =~= auth@.subrange(0, i as int).push(auth@[i as int]));
                i = i + 1;
            }
        }
        if same {
            assert(token@ =~= token@.subrange(0, i as int));
            assert(auth@ =~= auth@.subrange(0, i as int));
            Ok(())
        } else {
            Err("Token Invalid".to_owned())
        }
    }
}

} // verus!
