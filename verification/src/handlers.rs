//! Request handling: the decisions that tie the ingestion pipeline to the
//! storage backend. Each handler takes plain values — the validated payload
//! or the requested identifier — and yields a status code with a response
//! body; the HTTP layer around the library only transports them.

use crate::config::Config;
use crate::db::Db;
use crate::ingest::{ingest, spec_ingest, IngestError};
use crate::utils::valid_id;
use vstd::prelude::*;

verus! {

/// A response whose body is text: the stored-payload URL, or usage text.
pub struct TextResponse {
    pub status: u16,
    pub body: String,
}

/// A response whose body is raw bytes: a retrieved payload.
pub struct BytesResponse {
    pub status: u16,
    pub body: Vec<u8>,
}

/// The success body of a store request: base URL, `/`, identifier, newline.
pub open spec fn post_url(base: Seq<char>, id: Seq<char>) -> Seq<char> {
    base + seq!['/'] + id + seq!['\n']
}

/// Store path: an empty payload is a client error and never reaches the
/// backend; any other payload is stored under a fresh identifier and
/// answered with the URL under which it can be retrieved.
pub fn handle_post<D: Db>(data: Vec<u8>, config: &Config, db: &mut D) -> (r: TextResponse)
    requires
        old(db).inv(),
    ensures
        final(db).inv(),
        data@.len() == 0 ==> r.status == 400 && r.body@ == Seq::<char>::empty()
            && final(db).records() == old(db).records(),
        data@.len() > 0 ==> r.status == 200 && (exists|id: Seq<char>|
            valid_id(id) && final(db).records() == old(db).records().insert(id, data@) && r.body@
                == post_url(config.jpaste_public_url@, id)),
{
    if data.len() == 0 {
        TextResponse { status: 400, body: String::new() }
    } else {
        let ghost data_view = data@;
        let id = db.set(data);
        let mut body = config.jpaste_public_url.clone();
        body.append("/");
        body.append(id.as_str());
        body.append("\n");
        proof {
            reveal_strlit("/");
            reveal_strlit("\n");
            assert("/"@ =~= seq!['/']);
            assert("\n"@ =~= seq!['\n']);
            assert(body@ =~= post_url(config.jpaste_public_url@, id@));
            assert(valid_id(id@) && db.records() == old(db).records().insert(id@, data_view)
                && body@ == post_url(config.jpaste_public_url@, id@));
        }
        TextResponse { status: 200, body }
    }
}

/// Retrieve path: the stored payload with status 200, or 404 with an empty
/// body where no record exists under the identifier — in particular for
/// every identifier never issued.
pub fn handle_get<D: Db>(id: &str, db: &mut D) -> (r: BytesResponse)
    requires
        old(db).inv(),
    ensures
        final(db).inv(),
        final(db).records() == old(db).records(),
        old(db).records().contains_key(id@) ==> r.status == 200
            && r.body@ == old(db).records()[id@],
        !old(db).records().contains_key(id@) ==> r.status == 404 && r.body@ == Seq::<u8>::empty(),
{
    match db.get(id) {
        Some(content) => BytesResponse { status: 200, body: content },
        None => BytesResponse { status: 404, body: Vec::new() },
    }
}

/// The usage text, parameterized by the configured public base URL.
pub open spec fn help_text(base: Seq<char>) -> Seq<char> {
    "       _                  __
      (_)___  ____ ______/ /____
     / / __ \\/ __ `/ ___/ __/ _ \\
    / / /_/ / /_/ (__  ) /_/  __/
 __/ / .___/\\__,_/____/\\__/\\___/
/___/_/

USAGE
  $ echo hi | curl -F 'j=<-' "@ + base + "\n  "@ + base + "/ZnD9BBwj\n  $ curl "@ + base
        + "/ZnD9BBwj\n  hi \n"@
}

/// Help path: status 200 with the usage text for the configured base URL.
pub fn handle_help(config: &Config) -> (r: TextResponse)
    ensures
        r.status == 200,
        r.body@ == help_text(config.jpaste_public_url@),
{
    let mut body = String::from_str(
        "       _                  __
      (_)___  ____ ______/ /____
     / / __ \\/ __ `/ ___/ __/ _ \\
    / / /_/ / /_/ (__  ) /_/  __/
 __/ / .___/\\__,_/____/\\__/\\___/
/___/_/

USAGE
  $ echo hi | curl -F 'j=<-' ",
    );
    body.append(config.jpaste_public_url.as_str());
    body.append("\n  ");
    body.append(config.jpaste_public_url.as_str());
    body.append("/ZnD9BBwj\n  $ curl ");
    body.append(config.jpaste_public_url.as_str());
    body.append("/ZnD9BBwj\n  hi \n");
    proof {
        assert(body@ =~= help_text(config.jpaste_public_url@));
    }
    TextResponse { status: 200, body }
}

/// The whole store path, from raw request body to response: ingestion first,
/// so that an oversized body is answered 413 and a non-multipart request 400
/// before any backend call occurs — in both cases, and on an empty payload,
/// the backend's records stay exactly as they were.
pub fn process_post<D: Db>(
    body: &[u8],
    content_type: &[u8],
    declared_len: Option<usize>,
    config: &Config,
    db: &mut D,
) -> (r: TextResponse)
    requires
        old(db).inv(),
    ensures
        final(db).inv(),
        (match spec_ingest(body@, content_type@, declared_len) {
            Err(IngestError::PayloadTooLarge) => r.status == 413 && r.body@
                == Seq::<char>::empty() && final(db).records() == old(db).records(),
            Err(IngestError::MalformedBody) => r.status == 400 && r.body@ == Seq::<char>::empty()
                && final(db).records() == old(db).records(),
            Ok(p) => (p.len() == 0 ==> r.status == 400 && r.body@ == Seq::<char>::empty()
                && final(db).records() == old(db).records()) && (p.len() > 0 ==> r.status == 200
                && (exists|id: Seq<char>|
                valid_id(id) && final(db).records() == old(db).records().insert(id, p) && r.body@
                    == post_url(config.jpaste_public_url@, id))),
        }),
{
    match ingest(body, content_type, declared_len) {
        Ok(payload) => handle_post(payload, config, db),
        Err(IngestError::PayloadTooLarge) => TextResponse { status: 413, body: String::new() },
        Err(IngestError::MalformedBody) => TextResponse { status: 400, body: String::new() },
    }
}

} // verus!
