//! Media: content URIs and the limit on uploads.

use vstd::prelude::*;
use vstd::string::*;

use crate::api::{ErrorCode, ErrorCodeView};
use crate::error::{CoreError, CoreErrorView};
use crate::text::{join2, str_eq};

verus! {

/// The size in bytes up to which the server takes an upload.
pub const MAX_UPLOAD_BYTES: usize = 50 * 1024 * 1024;

/// The place of the first slash.
pub open spec fn slash_at(s: Seq<char>) -> Option<int>
    decreases s.len(),
{
    if s.len() == 0 {
        None
    } else if s[0] == '/' {
        Some(0)
    } else {
        match slash_at(s.drop_first()) {
            Some(k) => Some(k + 1),
            None => None,
        }
    }
}

/// The server and the media id that a content URI names.
pub open spec fn uri_parts(uri: Seq<char>) -> Result<(Seq<char>, Seq<char>), CoreErrorView> {
    let scheme = "pigeon://"@;
    if !scheme.is_prefix_of(uri) {
        Err(CoreErrorView::Protocol("not a pigeon:// content URI: "@ + uri))
    } else {
        let rest = uri.skip(scheme.len() as int);
        match slash_at(rest) {
            None => Err(CoreErrorView::Protocol("content URI missing media id: "@ + uri)),
            Some(k) => {
                let server = rest.take(k);
                let media_id = rest.skip(k + 1);
                if server.len() == 0 || media_id.len() == 0 || media_id.contains('/') {
                    Err(CoreErrorView::Protocol("malformed content URI: "@ + uri))
                } else {
                    Ok((server, media_id))
                }
            },
        }
    }
}

proof fn lemma_slash_at(s: Seq<char>, k: int)
    requires
        0 <= k <= s.len(),
        forall|i: int| 0 <= i < k ==> #[trigger] s[i] != '/',
        k < s.len() ==> s[k] == '/',
    ensures
        slash_at(s) == if k < s.len() {
            Some(k)
        } else {
            None
        },
    decreases s.len(),
{
    if k > 0 {
        let rest = s.drop_first();
        assert(s[0] != '/');
        assert forall|i: int| 0 <= i < k - 1 implies #[trigger] rest[i] != '/' by {
            assert(s[i + 1] != '/');
        }
        lemma_slash_at(rest, k - 1);
    }
}

proof fn lemma_slash_found(s: Seq<char>)
    ensures
        match slash_at(s) {
            Some(k) => 0 <= k < s.len() && s[k] == '/' && forall|i: int|
                0 <= i < k ==> #[trigger] s[i] != '/',
            None => forall|i: int| 0 <= i < s.len() ==> #[trigger] s[i] != '/',
        },
    decreases s.len(),
{
    if s.len() > 0 && s[0] != '/' {
        let rest = s.drop_first();
        lemma_slash_found(rest);
        match slash_at(rest) {
            Some(k) => {
                assert forall|i: int| 0 <= i < k + 1 implies #[trigger] s[i] != '/' by {
                    if i > 0 {
                        assert(rest[i - 1] != '/');
                    }
                }
            },
            None => {
                assert forall|i: int| 0 <= i < s.len() implies #[trigger] s[i] != '/' by {
                    if i > 0 {
                        assert(rest[i - 1] != '/');
                    }
                }
            },
        }
    }
}

/// A content URI is one exactly where it is made of a server and a media id,
/// neither empty and neither with a slash; and those are what it names.
pub proof fn content_uri_names_its_parts(uri: Seq<char>, server: Seq<char>, media_id: Seq<char>)
    ensures
        uri_parts(uri) == Ok::<(Seq<char>, Seq<char>), CoreErrorView>((server, media_id)) <==> (uri
            == "pigeon://"@ + server + "/"@ + media_id && server.len() > 0 && media_id.len() > 0
            && !server.contains('/') && !media_id.contains('/')),
{
    reveal_strlit("pigeon://");
    reveal_strlit("/");
    let scheme = "pigeon://"@;
    let rest = uri.skip(scheme.len() as int);
    if scheme.is_prefix_of(uri) {
        lemma_slash_found(rest);
        assert(uri =~= scheme + rest);
    }
    if uri_parts(uri) == Ok::<(Seq<char>, Seq<char>), CoreErrorView>((server, media_id)) {
        let k = slash_at(rest)->0;
        assert(rest =~= server + "/"@ + media_id);
        assert(uri =~= scheme + server + "/"@ + media_id);
        assert(!server.contains('/')) by {
            if server.contains('/') {
                let i = choose|i: int| 0 <= i < server.len() && server[i] == '/';
                assert(rest[i] == '/');
            }
        }
    }
    if uri == scheme + server + "/"@ + media_id && server.len() > 0 && media_id.len() > 0
        && !server.contains('/') && !media_id.contains('/') {
        assert(scheme.is_prefix_of(uri)) by {
            assert(uri.take(9) =~= scheme);
        }
        assert(rest =~= server + "/"@ + media_id);
        assert forall|i: int| 0 <= i < server.len() implies #[trigger] rest[i] != '/' by {
            assert(server.contains(server[i]));
        }
        lemma_slash_at(rest, server.len() as int);
        assert(rest.take(server.len() as int) =~= server);
        assert(rest.skip((server.len() + 1) as int) =~= media_id);
    }
}

fn has_slash(s: &str, from: usize, to: usize) -> (r: bool)
    requires
        from <= to <= s@.len(),
    ensures
        r == s@.subrange(from as int, to as int).contains('/'),
{
    let ghost part = s@.subrange(from as int, to as int);
    let mut i: usize = from;
    while i < to
        invariant
            from <= i <= to <= s@.len(),
            part == s@.subrange(from as int, to as int),
            forall|j: int| 0 <= j < i - from ==> #[trigger] part[j] != '/',
        decreases to - i,
    {
        if s.get_char(i) == '/' {
            assert(part[i - from] == '/');
            return true;
        }
        i += 1;
    }
    false
}

/// The server and the media id that a `pigeon://{server}/{media_id}` content URI
/// names.
pub fn parse_content_uri(uri: &str) -> (r: Result<(String, String), CoreError>)
    ensures
        match r {
            Ok(parts) => uri_parts(uri@) == Ok::<(Seq<char>, Seq<char>), CoreErrorView>(
                (parts.0@, parts.1@),
            ),
            Err(e) => uri_parts(uri@) == Err::<(Seq<char>, Seq<char>), CoreErrorView>(e@),
        },
{
    proof {
        reveal_strlit("pigeon://");
    }
    let n: usize = uri.unicode_len();
    if n < 9 || !str_eq(uri.substring_char(0, 9), "pigeon://") {
        assert(!"pigeon://"@.is_prefix_of(uri@)) by {
            if "pigeon://"@.is_prefix_of(uri@) {
                assert(uri@.subrange(0, 9) =~= "pigeon://"@);
            }
        }
        return Err(CoreError::Protocol { reason: join2("not a pigeon:// content URI: ", uri) });
    }
    assert("pigeon://"@.is_prefix_of(uri@)) by {
        assert(uri@.subrange(0, 9) =~= uri@.take(9));
    }
    let ghost rest = uri@.skip(9);
    let mut k: usize = 9;
    while k < n && uri.get_char(k) != '/'
        invariant
            9 <= k <= n,
            n == uri@.len(),
            rest == uri@.skip(9),
            forall|i: int| 0 <= i < k - 9 ==> #[trigger] rest[i] != '/',
        decreases n - k,
    {
        assert(rest[k - 9] == uri@[k as int]);
        k += 1;
    }
    proof {
        if k < n {
            assert(rest[k - 9] == uri@[k as int]);
        }
        lemma_slash_at(rest, k - 9);
    }
    if k == n {
        return Err(CoreError::Protocol { reason: join2("content URI missing media id: ", uri) });
    }
    assert(uri@.subrange(9, k as int) =~= rest.take(k - 9));
    assert(uri@.subrange(k + 1, n as int) =~= rest.skip(k - 9 + 1));
    if k == 9 || k + 1 == n || has_slash(uri, k + 1, n) {
        return Err(CoreError::Protocol { reason: join2("malformed content URI: ", uri) });
    }
    Ok((uri.substring_char(9, k).to_owned(), uri.substring_char(k + 1, n).to_owned()))
}

/// Refuses an upload that the server would not take.
pub fn check_upload(size: usize) -> (r: Result<(), CoreError>)
    ensures
        match r {
            Ok(_) => size <= MAX_UPLOAD_BYTES,
            Err(e) => size > MAX_UPLOAD_BYTES && e@ == CoreErrorView::Api(
                ErrorCodeView::LimitExceeded,
                "file exceeds the 50 MiB media upload limit"@,
            ),
        },
{
    if size > MAX_UPLOAD_BYTES {
        return Err(
            CoreError::Api {
                code: ErrorCode::LimitExceeded,
                reason: "file exceeds the 50 MiB media upload limit".to_owned(),
            },
        );
    }
    Ok(())
}

} // verus!
