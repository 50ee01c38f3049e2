//! Application settings: the remote server's URL and auth token. Reading and
//! writing the settings file is the caller's job; the merge and validation
//! rules live here.

use vstd::prelude::*;

verus! {

/// Repeatedly strip a trailing character.
pub open spec fn strip_trailing(s: Seq<char>, c: char) -> Seq<char>
    decreases s.len(),
{
    if s.len() > 0 && s.last() == c {
        strip_trailing(s.drop_last(), c)
    } else {
        s
    }
}

#[derive(Debug)]
pub struct AppSettings {
    pub nacho_server_url: Option<String>,
    pub nacho_auth_token: Option<String>,
}

impl Default for AppSettings {
    /// Fresh settings carry neither a server URL nor a token.
    fn default() -> (s: Self)
        ensures
            s.nacho_server_url is None,
            s.nacho_auth_token is None,
    {
        AppSettings { nacho_server_url: None, nacho_auth_token: None }
    }
}

impl AppSettings {
    /// Replace the server URL, leaving the token untouched.
    pub fn update_nacho_server_url(&mut self, url: Option<String>)
        ensures
            final(self).nacho_server_url == url,
            final(self).nacho_auth_token == old(self).nacho_auth_token,
    {
        self.nacho_server_url = url;
    }

    /// Replace the auth token, leaving the server URL untouched.
    pub fn update_nacho_auth_token(&mut self, auth_token: Option<String>)
        ensures
            final(self).nacho_auth_token == auth_token,
            final(self).nacho_server_url == old(self).nacho_server_url,
    {
        self.nacho_auth_token = auth_token;
    }

    /// The configured server URL, if any.
    pub fn get_nacho_server_url(&self) -> (r: Option<String>)
        ensures
            match r {
                Some(u) => self.nacho_server_url matches Some(v) && v@ == u@,
                None => self.nacho_server_url is None,
            },
    {
        match &self.nacho_server_url {
            Some(u) => Some(u.clone()),
            None => None,
        }
    }

    /// The configured auth token, if any.
    pub fn get_nacho_auth_token(&self) -> (r: Option<String>)
        ensures
            match r {
                Some(t) => self.nacho_auth_token matches Some(v) && v@ == t@,
                None => self.nacho_auth_token is None,
            },
    {
        match &self.nacho_auth_token {
            Some(t) => Some(t.clone()),
            None => None,
        }
    }

    /// The remote server's base URL with trailing slashes removed, or the
    /// fixed complaint when the URL is missing or empty.
    pub fn nacho_server_base_url(&self) -> (r: Result<String, String>)
        ensures
            match r {
                Ok(u) => self.nacho_server_url matches Some(v) && v@.len() > 0 && u@
                    == strip_trailing(v@, '/'),
                Err(e) => (match self.nacho_server_url {
                    Some(v) => v@.len() == 0,
                    None => true,
                }) && e@ == "Nacho Server URL not configured. Please set it in Settings."@,
            },
    {
        match &self.nacho_server_url {
            Some(u) if u.as_str().unicode_len() > 0 => Ok(strip_trailing_slashes(u.as_str())),
            _ => Err(String::from_str("Nacho Server URL not configured. Please set it in Settings.")),
        }
    }

    /// The configured auth token, or the fixed complaint when it is missing
    /// or empty.
    pub fn nacho_auth_token_value(&self) -> (r: Result<String, String>)
        ensures
            match r {
                Ok(t) => self.nacho_auth_token matches Some(v) && v@.len() > 0 && t@ == v@,
                Err(e) => (match self.nacho_auth_token {
                    Some(v) => v@.len() == 0,
                    None => true,
                }) && e@ == "Nacho Auth Token not configured. Please set it in Settings."@,
            },
    {
        match &self.nacho_auth_token {
            Some(t) if t.as_str().unicode_len() > 0 => Ok(t.clone()),
            _ => Err(String::from_str("Nacho Auth Token not configured. Please set it in Settings.")),
        }
    }
}

/// Remove every trailing slash.
pub fn strip_trailing_slashes(s: &str) -> (r: String)
    ensures
        r@ == strip_trailing(s@, '/'),
{
    let n = s.unicode_len();
    let mut i = n;
    proof {
        assert(s@.subrange(0, n as int) =~= s@);
    }
    while i > 0
        invariant
            0 <= i <= n,
            n == s@.len(),
            strip_trailing(s@, '/') == strip_trailing(s@.subrange(0, i as int), '/'),
        ensures
            0 <= i <= n,
            n == s@.len(),
            strip_trailing(s@, '/') == strip_trailing(s@.subrange(0, i as int), '/'),
            i == 0 || s@[i - 1] != '/',
        decreases i,
    {
        let c = s.get_char(i - 1);
        proof {
            assert(c == '/' <==> c as u32 == 47) by {
                assert('/' as u32 == 47);
            }
        }
        if c as u32 != 47 {
            break ;
        }
        proof {
            assert(s@.subrange(0, i as int).drop_last() =~= s@.subrange(0, i - 1));
            assert(s@.subrange(0, i as int).last() == s@[i - 1]);
        }
        i = i - 1;
    }
    let r = s.substring_char(0, i);
    proof {
        if i > 0 {
            assert(s@.subrange(0, i as int).last() != '/');
        }
        assert(strip_trailing(s@, '/') == s@.subrange(0, i as int));
    }
    String::from_str(r)
}

} // verus!
