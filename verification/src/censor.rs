//! The table of secrets that are struck out of a game's log.
use crate::ident::{hyphenated_form, hyphenated_text, simple_form, simple_text};
use crate::text::{chars_of, join3, starts_with_at, string_of};
use crate::textmap::{push_new, TextMap};
use vstd::prelude::*;

verus! {

/// The account that the game is started for.
#[derive(Debug, Clone, PartialEq, Eq)]
pub struct Credentials {
    pub id: u128,
    pub username: String,
    pub access_token: String,
}

/// A map of strings, read as a map of texts.
pub open spec fn texts(m: Map<Seq<char>, String>) -> Map<Seq<char>, Seq<char>> {
    m.map_values(|v: String| v@)
}

/// To put a string into a map is to put its text into the map of texts.
proof fn lemma_texts_insert(m: Map<Seq<char>, String>, k: Seq<char>, v: String)
    ensures
        texts(m.insert(k, v)) == texts(m).insert(k, v@),
{
    assert(texts(m.insert(k, v)) =~= texts(m).insert(k, v@));
}

/// What is struck out of the log, and what stands in its place: the name of the
/// computer's user between two path separators of either kind, the account's access
/// token and user name, and the account's identifier in its simple and its hyphenated
/// form. Where two of these are the same text, the later one decides.
pub open spec fn censor_map(os_user: Seq<char>, credentials: Credentials) -> Map<
    Seq<char>,
    Seq<char>,
> {
    Map::<Seq<char>, Seq<char>>::empty().insert(
        "/"@ + os_user + "/"@,
        "/{COMPUTER_USERNAME}/"@,
    ).insert("\\"@ + os_user + "\\"@, "\\{COMPUTER_USERNAME}\\"@).insert(
        credentials.access_token@,
        "{MINECRAFT_ACCESS_TOKEN}"@,
    ).insert(credentials.username@, "{MINECRAFT_USERNAME}"@).insert(
        simple_text(credentials.id),
        "{MINECRAFT_UUID}"@,
    ).insert(hyphenated_text(credentials.id), "{MINECRAFT_UUID}"@)
}

/// The secrets of `censor_map` in the order in which they are struck out. A secret
/// that occurs twice keeps its first place.
pub open spec fn censor_keys(os_user: Seq<char>, credentials: Credentials) -> Seq<Seq<char>> {
    push_new(
        push_new(
            push_new(
                push_new(
                    push_new(
                        push_new(Seq::<Seq<char>>::empty(), "/"@ + os_user + "/"@),
                        "\\"@ + os_user + "\\"@,
                    ),
                    credentials.access_token@,
                ),
                credentials.username@,
            ),
            simple_text(credentials.id),
        ),
        hyphenated_text(credentials.id),
    )
}

/// Whether `table` is the table of secrets for the computer user `os_user` and the
/// account `credentials`.
pub open spec fn is_censor_table(
    table: TextMap<String>,
    os_user: Seq<char>,
    credentials: Credentials,
) -> bool {
    &&& texts(table@) == censor_map(os_user, credentials)
    &&& table.keys() == censor_keys(os_user, credentials)
}

/// The table for the computer user `os_user` and the account `credentials`.
pub fn censor_table(os_user: &str, credentials: &Credentials) -> (table: TextMap<String>)
    ensures
        texts(table@) == censor_map(os_user@, *credentials),
        table.keys() == censor_keys(os_user@, *credentials),
{
    let mut table: TextMap<String> = TextMap::new();
    assert(texts(table@) =~= Map::<Seq<char>, Seq<char>>::empty());
    let ghost m0 = table@;
    let v1 = "/{COMPUTER_USERNAME}/".to_owned();
    table.insert(join3("/", os_user, "/"), v1);
    let ghost m1 = table@;
    let v2 = "\\{COMPUTER_USERNAME}\\".to_owned();
    table.insert(join3("\\", os_user, "\\"), v2);
    let ghost m2 = table@;
    let v3 = "{MINECRAFT_ACCESS_TOKEN}".to_owned();
    table.insert(credentials.access_token.clone(), v3);
    let ghost m3 = table@;
    let v4 = "{MINECRAFT_USERNAME}".to_owned();
    table.insert(credentials.username.clone(), v4);
    let ghost m4 = table@;
    let v5 = "{MINECRAFT_UUID}".to_owned();
    table.insert(simple_form(credentials.id), v5);
    let ghost m5 = table@;
    let v6 = "{MINECRAFT_UUID}".to_owned();
    table.insert(hyphenated_form(credentials.id), v6);
    proof {
        lemma_texts_insert(m0, "/"@ + os_user@ + "/"@, v1);
        lemma_texts_insert(m1, "\\"@ + os_user@ + "\\"@, v2);
        lemma_texts_insert(m2, credentials.access_token@, v3);
        lemma_texts_insert(m3, credentials.username@, v4);
        lemma_texts_insert(m4, simple_text(credentials.id), v5);
        lemma_texts_insert(m5, hyphenated_text(credentials.id), v6);
    }
    table
}

/// Calls `whoami::username`, which gives the name of the user that the process runs
/// as, or a fixed name where the system does not tell. Nothing is claimed of the name.
#[verifier::external_body]
pub(crate) fn os_username() -> (name: String) {
    whoami::username()
}

/// The table for the user that this process runs as and the account `credentials`.
pub fn censor_table_here(credentials: &Credentials) -> (table: TextMap<String>)
    ensures
        exists|os_user: Seq<char>| is_censor_table(table, os_user, *credentials),
{
    let name = os_username();
    let table = censor_table(name.as_str(), credentials);
    assert(is_censor_table(table, name@, *credentials));
    table
}

/// The text with each occurrence of `secret` replaced by `mark`. The text is read
/// from the left, and what was replaced is not read again. An empty secret occurs
/// nowhere.
pub open spec fn struck(text: Seq<char>, secret: Seq<char>, mark: Seq<char>) -> Seq<char>
    decreases text.len(),
{
    if secret.len() == 0 || text.len() < secret.len() {
        text
    } else if text.subrange(0, secret.len() as int) == secret {
        mark + struck(text.skip(secret.len() as int), secret, mark)
    } else {
        seq![text[0]] + struck(text.skip(1), secret, mark)
    }
}

/// Replaces each occurrence of `secret` in `text` by `mark`.
pub fn strike(text: &str, secret: &str, mark: &str) -> (r: String)
    ensures
        r@ == struck(text@, secret@, mark@),
{
    let t = chars_of(text);
    let s = chars_of(secret);
    let m = chars_of(mark);
    if s.len() == 0 {
        return text.to_owned();
    }
    let mut out: Vec<char> = Vec::new();
    let mut i: usize = 0;
    assert(t@.skip(0) == t@);
    while i < t.len()
        invariant
            i <= t.len(),
            s.len() > 0,
            struck(t@, s@, m@) == out@ + struck(t@.skip(i as int), s@, m@),
        decreases t.len() - i,
    {
        let ghost rest = t@.skip(i as int);
        let ghost before = out@;
        if starts_with_at(&t, i, &s) {
            assert(rest.subrange(0, s.len() as int) == t@.subrange(i as int, i + s.len()));
            assert(rest.skip(s.len() as int) == t@.skip(i + s.len()));
            let mut k: usize = 0;
            while k < m.len()
                invariant
                    k <= m.len(),
                    out@ == before + m@.take(k as int),
                decreases m.len() - k,
            {
                out.push(m[k]);
                assert(m@.take(k + 1) == m@.take(k as int).push(m@[k as int]));
                k += 1;
            }
            assert(m@.take(m.len() as int) == m@);
            assert(before + m@ + struck(t@.skip(i + s.len()), s@, m@) == before + (m@ + struck(
                t@.skip(i + s.len()),
                s@,
                m@,
            )));
            i += s.len();
        } else {
            out.push(t[i]);
            assert(rest.skip(1) == t@.skip(i + 1));
            assert(rest[0] == t@[i as int]);
            proof {
                if rest.len() < s.len() {
                    assert(struck(rest.skip(1), s@, m@) == rest.skip(1));
                    assert(rest == seq![rest[0]] + rest.skip(1));
                } else {
                    assert(rest.subrange(0, s.len() as int) == t@.subrange(
                        i as int,
                        i + s.len(),
                    ));
                }
            }
            assert(before.push(t@[i as int]) + struck(t@.skip(i + 1), s@, m@) == before + (
            seq![rest[0]] + struck(rest.skip(1), s@, m@)));
            i += 1;
        }
    }
    assert(t@.skip(t.len() as int) == Seq::<char>::empty());
    assert(out@ + Seq::<char>::empty() == out@);
    string_of(&out, 0, out.len())
}

/// The text with the first `n` secrets of a table struck out, one after the other in
/// the order in which they came into the table, each replaced by its mark.
pub open spec fn redacted(text: Seq<char>, table: TextMap<String>, n: int) -> Seq<char>
    decreases n,
{
    if n <= 0 {
        text
    } else {
        struck(redacted(text, table, n - 1), table.key(n - 1), table@[table.key(n - 1)]@)
    }
}

/// Strikes the secrets of a table out of a text.
pub fn redact(text: &str, table: &TextMap<String>) -> (r: String)
    ensures
        r@ == redacted(text@, *table, table.size() as int),
{
    let mut r = text.to_owned();
    let mut i: usize = 0;
    while i < table.len()
        invariant
            i <= table.size(),
            r@ == redacted(text@, *table, i as int),
        decreases table.size() - i,
    {
        let (secret, mark) = table.entry(i);
        r = strike(r.as_str(), secret.as_str(), mark.as_str());
        i += 1;
    }
    r
}

} // verus!
