//! The closed set of HTTP verbs the server understands, with their wire tokens.

use vstd::prelude::*;

use crate::error::InvalidMethodError;

verus! {

#[derive(Debug, Eq, PartialEq, Copy, Clone, Structural)]
pub enum HttpMethod {
    Get,
    Post,
    Put,
    Patch,
    Delete,
}

impl HttpMethod {
    /// The wire token of this method, as bytes (e.g. `GET`).
    pub open spec fn token(self) -> Seq<u8> {
        match self {
            HttpMethod::Get => seq![71u8, 69u8, 84u8],
            HttpMethod::Post => seq![80u8, 79u8, 83u8, 84u8],
            HttpMethod::Put => seq![80u8, 85u8, 84u8],
            HttpMethod::Patch => seq![80u8, 65u8, 84u8, 67u8, 72u8],
            HttpMethod::Delete => seq![68u8, 69u8, 76u8, 69u8, 84u8, 69u8],
        }
    }

    /// The method named by a wire token: one of the closed set, or nothing.
    pub open spec fn of_token(tok: Seq<u8>) -> Option<HttpMethod> {
        if tok == HttpMethod::Get.token() {
            Some(HttpMethod::Get)
        } else if tok == HttpMethod::Post.token() {
            Some(HttpMethod::Post)
        } else if tok == HttpMethod::Put.token() {
            Some(HttpMethod::Put)
        } else if tok == HttpMethod::Patch.token() {
            Some(HttpMethod::Patch)
        } else if tok == HttpMethod::Delete.token() {
            Some(HttpMethod::Delete)
        } else {
            None
        }
    }

    /// Exactly the tokens of the closed set name a method: each method's own
    /// wire token decodes to that method, and a token equal to no method's
    /// decodes to none. `of_token` is the method step of request decoding.
    pub proof fn lemma_method_token_exact(tok: Seq<u8>)
        ensures
            forall|m: HttpMethod| tok == m.token() ==> HttpMethod::of_token(tok) == Some(m),
            (forall|m: HttpMethod| tok != m.token()) ==> HttpMethod::of_token(tok) is None,
    {
        assert(HttpMethod::Get.token()[0] == 71);
        assert(HttpMethod::Put.token()[0] == 80);
        assert(HttpMethod::Get.token().len() == 3);
        assert(HttpMethod::Post.token().len() == 4);
        assert(HttpMethod::Put.token().len() == 3);
        assert(HttpMethod::Patch.token().len() == 5);
        assert(HttpMethod::Delete.token().len() == 6);
        assert forall|m: HttpMethod| tok == m.token() implies HttpMethod::of_token(tok) == Some(
            m,
        ) by {
            match m {
                HttpMethod::Get => assert(HttpMethod::of_token(tok) == Some(HttpMethod::Get)),
                HttpMethod::Post => assert(HttpMethod::of_token(tok) == Some(HttpMethod::Post)),
                HttpMethod::Put => assert(HttpMethod::of_token(tok) == Some(HttpMethod::Put)),
                HttpMethod::Patch => assert(HttpMethod::of_token(tok) == Some(HttpMethod::Patch)),
                HttpMethod::Delete => assert(HttpMethod::of_token(tok) == Some(HttpMethod::Delete)),
            }
        }
    }

    /// The method named by a wire token, if any: exactly the five tokens of
    /// the closed set are accepted, and anything else is an invalid method.
    pub fn try_from(value: &[u8]) -> (r: Result<HttpMethod, InvalidMethodError>)
        ensures
            r matches Ok(m) ==> value@ == m.token() && Self::of_token(value@) == Some(m),
            r is Err ==> (forall|m: HttpMethod| value@ != m.token()) && Self::of_token(value@)
                is None,
    {
        let n = value.len();
        if n == 3 && value[0] == 71 && value[1] == 69 && value[2] == 84 {
            proof {
                assert(value@ =~= HttpMethod::Get.token());
            }
            Ok(HttpMethod::Get)
        } else if n == 4 && value[0] == 80 && value[1] == 79 && value[2] == 83 && value[3] == 84 {
            proof {
                assert(value@ =~= HttpMethod::Post.token());
            }
            Ok(HttpMethod::Post)
        } else if n == 3 && value[0] == 80 && value[1] == 85 && value[2] == 84 {
            proof {
                assert(value@ =~= HttpMethod::Put.token());
            }
            Ok(HttpMethod::Put)
        } else if n == 5 && value[0] == 80 && value[1] == 65 && value[2] == 84 && value[3] == 67
            && value[4] == 72 {
            proof {
                assert(value@ =~= HttpMethod::Patch.token());
            }
            Ok(HttpMethod::Patch)
        } else if n == 6 && value[0] == 68 && value[1] == 69 && value[2] == 76 && value[3] == 69
            && value[4] == 84 && value[5] == 69 {
            proof {
                assert(value@ =~= HttpMethod::Delete.token());
            }
            Ok(HttpMethod::Delete)
        } else {
            proof {
                assert forall|m: HttpMethod| value@ != m.token() by {
                    match m {
                        HttpMethod::Get => assert(value@ != m.token()),
                        HttpMethod::Post => assert(value@ != m.token()),
                        HttpMethod::Put => assert(value@ != m.token()),
                        HttpMethod::Patch => assert(value@ != m.token()),
                        HttpMethod::Delete => assert(value@ != m.token()),
                    }
                }
            }
            Err(InvalidMethodError)
        }
    }
}

} // verus!
