//! Addressing the files of the mod site: games, mods, files, the links
//! from which they are downloaded, and the addresses that a download
//! manager is handed.

use crate::name_map::NameMap;
use crate::names::same_name;
use crate::schema::entered;
use crate::text::decimal;
use crate::text::parse_u64;
use crate::text::push_decimal;
use crate::text::unsigned_number;
use vstd::prelude::*;
use vstd::string::StrSliceExecFns;
use vstd::string::StringExecFns;

verus! {

/// The root of the site's interface.
pub open spec fn api_root() -> Seq<char> {
    "https://api.nexusmods.com"@
}

/// A place from which a file can be downloaded.
#[derive(Debug)]
pub struct DownloadLink {
    pub name: String,
    pub short_name: String,
    pub uri: String,
}

/// Access to the site with a key.
#[derive(Debug)]
pub struct NexusApi {
    pub apikey: String,
}

/// A game on the site.
#[derive(Debug)]
pub struct Game {
    pub api: NexusApi,
    pub game_id: String,
}

/// A mod of a game.
#[derive(Debug)]
pub struct Mod {
    pub game: Game,
    pub id: u64,
}

/// A file of a mod.
#[derive(Debug)]
pub struct File {
    pub mod_: Mod,
    pub id: u64,
}

/// The parts of an address that the site's addresses are read from.
#[derive(Debug)]
pub struct UrlParts {
    /// The host, where the address has one.
    pub host: Option<String>,
    /// The segments of the path, where the address has a path that can
    /// be split.
    pub path_segments: Option<Vec<String>>,
    /// The pairs of the query, decoded, in their order.
    pub query_pairs: Vec<(String, String)>,
}

/// What the parts of an address hold.
pub struct UrlPartsView {
    pub host: Option<Seq<char>>,
    pub path_segments: Option<Seq<Seq<char>>>,
    pub query_pairs: Seq<(Seq<char>, Seq<char>)>,
}

impl View for UrlParts {
    type V = UrlPartsView;

    open spec fn view(&self) -> UrlPartsView {
        UrlPartsView {
            host: match self.host {
                Some(h) => Some(h@),
                None => None,
            },
            path_segments: match self.path_segments {
                Some(s) => Some(s.deep_view()),
                None => None,
            },
            query_pairs: self.query_pairs.deep_view(),
        }
    }
}

/// The parts of the address that a text is, where it is one.
pub uninterp spec fn url_parsed(text: Seq<char>) -> Option<UrlPartsView>;

/// The address `base` with the pairs appended to its query, as text,
/// where `base` is an address.
pub uninterp spec fn url_with_query(base: Seq<char>, pairs: Seq<(Seq<char>, Seq<char>)>) -> Option<
    Seq<char>,
>;

/// The longest text, in bytes, that is taken for an address or a part of
/// one.
pub const MAX_URL_TEXT: usize = 0x0100_0000;

/// Calls `url::Url::parse` and, on the address, `host_str`,
/// `path_segments` and `query_pairs`. What is read depends on the text
/// alone.
#[verifier::external_body]
fn url_parts(text: &str) -> (r: Option<UrlParts>)
    requires
        text@.len() <= MAX_URL_TEXT,
    ensures
        match r {
            Some(parts) => url_parsed(text@) == Some(parts@),
            None => url_parsed(text@) is None,
        },
{
    let url = url::Url::parse(text).ok()?;
    Some(UrlParts {
        host: url.host_str().map(|h| h.to_owned()),
        path_segments: url.path_segments().map(|s| s.map(|p| p.to_owned()).collect()),
        query_pairs: url.query_pairs().into_owned().collect(),
    })
}

/// Calls `url::Url::parse` on `base`, then `query_pairs_mut` and on it
/// `append_pair` for each pair in turn, and gives the address as text.
/// The text depends on the arguments alone.
#[verifier::external_body]
fn url_append_query(base: &str, pairs: &Vec<(String, String)>) -> (r: Option<String>)
    requires
        base@.len() <= MAX_URL_TEXT,
        pairs@.len() <= 2,
        forall|i: int|
            0 <= i < pairs@.len() ==> (#[trigger] pairs@[i]).0@.len() <= MAX_URL_TEXT && pairs@[i].1@.len()
                <= MAX_URL_TEXT,
    ensures
        match r {
            Some(text) => url_with_query(base@, pairs.deep_view()) == Some(text@),
            None => url_with_query(base@, pairs.deep_view()) is None,
        },
{
    let mut url = url::Url::parse(base).ok()?;
    {
        let mut query_pairs = url.query_pairs_mut();
        for pair in pairs.iter() {
            query_pairs.append_pair(&pair.0, &pair.1);
        }
    }
    Some(url.as_str().to_owned())
}

impl NexusApi {
    /// Access to the site with the given key.
    pub fn new(apikey: String) -> (api: NexusApi)
        ensures
            api.apikey == apikey,
    {
        NexusApi { apikey }
    }

    /// The game of the given name.
    pub fn game(self, game_id: String) -> (game: Game)
        ensures
            game.api == self,
            game.game_id == game_id,
    {
        Game { api: self, game_id }
    }
}

impl Game {
    /// The mod of the given number.
    pub fn mod_(self, id: u64) -> (m: Mod)
        ensures
            m.game == self,
            m.id == id,
    {
        Mod { game: self, id }
    }
}

impl Mod {
    /// The file of the given number.
    pub fn file(self, id: u64) -> (file: File)
        ensures
            file.mod_ == self,
            file.id == id,
    {
        File { mod_: self, id }
    }
}

/// The address at which the site hands out the download links of a file,
/// without a query.
pub open spec fn download_link_base(game: Seq<char>, mod_id: u64, file_id: u64) -> Seq<char> {
    api_root() + "/v1/games/"@ + game + "/mods/"@ + decimal(mod_id as nat) + "/files/"@ + decimal(
        file_id as nat,
    ) + "/download_link.json"@
}

/// The pairs that a request for a download link has in its query: the
/// key, where there is one, and then the time at which it runs out, where
/// there is one.
pub open spec fn download_link_pairs(key: Option<Seq<char>>, expires: Option<Seq<char>>) -> Seq<
    (Seq<char>, Seq<char>),
> {
    let first = match key {
        Some(k) => seq![("key"@, k)],
        None => Seq::empty(),
    };
    match expires {
        Some(e) => first.push(("expires"@, e)),
        None => first,
    }
}

/// Whether a part of the address of a download link is longer than an
/// address may be.
pub open spec fn link_too_long(base: Seq<char>, key: Option<Seq<char>>, expires: Option<Seq<char>>) -> bool {
    ||| (key matches Some(k) && k.len() > MAX_URL_TEXT)
    ||| (expires matches Some(e) && e.len() > MAX_URL_TEXT)
    ||| base.len() > MAX_URL_TEXT
}

/// The characters of an optional text.
pub open spec fn text_of(text: Option<&str>) -> Option<Seq<char>> {
    match text {
        Some(t) => Some(t@),
        None => None,
    }
}

/// Why the address of a download link could not be made.
#[derive(Debug)]
pub enum LinkError {
    /// A part of the address is longer than an address may be.
    TooLong,
    /// The parts do not make an address.
    Invalid,
}

impl File {
    /// The address at which the site hands out the download links of the
    /// file. The key and the time at which it runs out go into the query.
    pub fn download_link(&self, key: Option<&str>, expires: Option<&str>) -> (r: Result<
        String,
        LinkError,
    >)
        ensures
            match r {
                Ok(text) => {
                    &&& !link_too_long(
                        download_link_base(self.mod_.game.game_id@, self.mod_.id, self.id),
                        text_of(key),
                        text_of(expires),
                    )
                    &&& url_with_query(
                        download_link_base(self.mod_.game.game_id@, self.mod_.id, self.id),
                        download_link_pairs(text_of(key), text_of(expires)),
                    ) == Some(text@)
                },
                Err(LinkError::TooLong) => link_too_long(
                    download_link_base(self.mod_.game.game_id@, self.mod_.id, self.id),
                    text_of(key),
                    text_of(expires),
                ),
                Err(LinkError::Invalid) => {
                    &&& !link_too_long(
                        download_link_base(self.mod_.game.game_id@, self.mod_.id, self.id),
                        text_of(key),
                        text_of(expires),
                    )
                    &&& url_with_query(
                        download_link_base(self.mod_.game.game_id@, self.mod_.id, self.id),
                        download_link_pairs(text_of(key), text_of(expires)),
                    ) is None
                },
            },
    {
        let mut base = "https://api.nexusmods.com".to_owned();
        base.append("/v1/games/");
        base.append(self.mod_.game.game_id.as_str());
        base.append("/mods/");
        push_decimal(&mut base, self.mod_.id);
        base.append("/files/");
        push_decimal(&mut base, self.id);
        base.append("/download_link.json");
        let mut pairs: Vec<(String, String)> = Vec::new();
        if let Some(key) = key {
            if key.unicode_len() > MAX_URL_TEXT {
                return Err(LinkError::TooLong);
            }
            pairs.push(("key".to_owned(), key.to_owned()));
        }
        if let Some(expires) = expires {
            if expires.unicode_len() > MAX_URL_TEXT {
                return Err(LinkError::TooLong);
            }
            pairs.push(("expires".to_owned(), expires.to_owned()));
        }
        if base.as_str().unicode_len() > MAX_URL_TEXT {
            return Err(LinkError::TooLong);
        }
        proof {
            assert(base@ =~= download_link_base(self.mod_.game.game_id@, self.mod_.id, self.id));
        }
        proof {
            reveal_strlit("key");
            reveal_strlit("expires");
            assert(pairs.deep_view() =~= download_link_pairs(text_of(key), text_of(expires)));
        }
        match url_append_query(base.as_str(), &pairs) {
            Some(text) => Ok(text),
            None => Err(LinkError::Invalid),
        }
    }
}

/// An address that is no address of a file of the site.
#[derive(Debug, Clone, Copy, PartialEq, Eq, Structural)]
pub struct NXMFromUrlError;

impl NXMFromUrlError {
    /// What the failure is called.
    pub fn to_string(&self) -> (text: String)
        ensures
            text@ == "invalid nxm url"@,
    {
        "invalid nxm url".to_owned()
    }
}

/// Why a text is no address of a file of the site.
#[derive(Debug)]
pub enum NXMParseError {
    /// The text is an address, but not that of a file of the site.
    InvalidNXMUrl(NXMFromUrlError),
    /// The text is no address at all.
    InvalidURL,
    /// The text is longer than an address may be.
    TooLong,
}

/// The address of a file of the site as a download manager is handed it.
#[derive(Debug)]
pub struct NXMUrl {
    pub game_id: String,
    pub mod_id: u64,
    pub file_id: u64,
    pub key: Option<String>,
    pub expires: Option<u64>,
    pub user_id: Option<u64>,
    pub view: Option<bool>,
    pub extra_params: NameMap<String>,
}

/// The value that the query gives for `name`: that of the last pair of
/// that name.
pub open spec fn query_value(pairs: Seq<(Seq<char>, Seq<char>)>, name: Seq<char>) -> Option<Seq<char>> {
    if entered(pairs).contains_key(name) {
        Some(entered(pairs)[name])
    } else {
        None
    }
}

/// Whether a text says that something is to be viewed: `true`, or a
/// number above zero. A text that is neither that nor a number says
/// nothing.
pub open spec fn view_flag(text: Seq<char>) -> Option<bool> {
    if text == "true"@ {
        Some(true)
    } else {
        match unsigned_number(text) {
            Some(n) => Some(n > 0),
            None => None,
        }
    }
}

/// Whether the parts of an address are those of a file of the site: a
/// host, which names the game; a path of at least four segments, of which
/// the second is the number of the mod and the fourth that of the file;
/// and a query that says when the address runs out and whose it is, and
/// that, where it says whether the file is to be viewed, says so in a way
/// that can be understood.
pub open spec fn is_nxm(parts: UrlPartsView) -> bool {
    &&& parts.host is Some
    &&& parts.path_segments matches Some(segments)
    &&& segments.len() >= 4
    &&& unsigned_number(segments[1]) is Some
    &&& unsigned_number(segments[3]) is Some
    &&& query_value(parts.query_pairs, "expires"@) is Some
    &&& query_value(parts.query_pairs, "user_id"@) is Some
    &&& (query_value(parts.query_pairs, "view"@) matches Some(v) ==> view_flag(v) is Some)
}

impl NXMUrl {
    /// Whether the address holds what the parts say.
    pub open spec fn holds(&self, parts: UrlPartsView) -> bool {
        &&& self.game_id@ == parts.host->0
        &&& Some(self.mod_id) == unsigned_number(parts.path_segments->0[1])
        &&& Some(self.file_id) == unsigned_number(parts.path_segments->0[3])
        &&& self.key_view() == query_value(parts.query_pairs, "key"@)
        &&& self.expires == unsigned_number(query_value(parts.query_pairs, "expires"@)->0)
        &&& self.user_id == unsigned_number(query_value(parts.query_pairs, "user_id"@)->0)
        &&& self.view == match query_value(parts.query_pairs, "view"@) {
            Some(v) => view_flag(v),
            None => None,
        }
        &&& self.extra_params.wf()
        &&& self.extra_params.map().map_values(|v: String| v@) == entered(parts.query_pairs)
    }

    /// The key of the address, as characters.
    pub open spec fn key_view(&self) -> Option<Seq<char>> {
        match self.key {
            Some(k) => Some(k@),
            None => None,
        }
    }

    /// The address of a file that the parts of an address make.
    pub fn try_from(value: &UrlParts) -> (r: Result<NXMUrl, NXMFromUrlError>)
        ensures
            match r {
                Ok(nxm) => is_nxm(value@) && nxm.holds(value@),
                Err(_) => !is_nxm(value@),
            },
    {
        let segments = match &value.path_segments {
            Some(segments) => segments,
            None => {
                return Err(NXMFromUrlError);
            },
        };
        let mut query_map: NameMap<String> = NameMap::new();
        let ghost pairs = value.query_pairs.deep_view();
        proof {
            assert(query_map.map().map_values(|v: String| v@) =~= entered(pairs.take(0)));
        }
        let mut i: usize = 0;
        while i < value.query_pairs.len()
            invariant
                i <= value.query_pairs.len(),
                pairs == value.query_pairs.deep_view(),
                query_map.wf(),
                query_map.map().map_values(|v: String| v@) == entered(pairs.take(i as int)),
            decreases value.query_pairs.len() - i,
        {
            let name = value.query_pairs[i].0.clone();
            let text = value.query_pairs[i].1.clone();
            let ghost before = query_map;
            query_map.insert(name, text);
            proof {
                let next = pairs.take(i + 1);
                assert(next.drop_last() =~= pairs.take(i as int));
                assert(next.last() == pairs[i as int]);
                assert(pairs[i as int] == (name@, text@));
                assert(query_map.map().map_values(|v: String| v@) =~= before.map().map_values(
                    |v: String| v@,
                ).insert(name@, text@));
            }
            i += 1;
        }
        proof {
            assert(pairs.take(i as int) =~= pairs);
        }
        let game_id = match &value.host {
            Some(host) => host.clone(),
            None => {
                return Err(NXMFromUrlError);
            },
        };
        if segments.len() < 4 {
            return Err(NXMFromUrlError);
        }
        let mod_id = match parse_u64(segments[1].as_str()) {
            Some(n) => n,
            None => {
                return Err(NXMFromUrlError);
            },
        };
        let file_id = match parse_u64(segments[3].as_str()) {
            Some(n) => n,
            None => {
                return Err(NXMFromUrlError);
            },
        };
        let key = match query_map.get("key") {
            Some(k) => Some(k.clone()),
            None => None,
        };
        let expires = match query_map.get("expires") {
            Some(text) => parse_u64(text.as_str()),
            None => {
                return Err(NXMFromUrlError);
            },
        };
        let user_id = match query_map.get("user_id") {
            Some(text) => parse_u64(text.as_str()),
            None => {
                return Err(NXMFromUrlError);
            },
        };
        let view = match query_map.get("view") {
            Some(text) => {
                if same_name(text.as_str(), "true") {
                    Some(true)
                } else {
                    match parse_u64(text.as_str()) {
                        Some(n) => Some(n > 0),
                        None => {
                            return Err(NXMFromUrlError);
                        },
                    }
                }
            },
            None => None,
        };
        Ok(
            NXMUrl {
                game_id,
                mod_id,
                file_id,
                key,
                expires,
                user_id,
                view,
                extra_params: query_map,
            },
        )
    }

    /// Reads the address of a file of the site from its text.
    pub fn from_str(s: &str) -> (r: Result<NXMUrl, NXMParseError>)
        ensures
            match r {
                Ok(nxm) => url_parsed(s@) matches Some(parts) && is_nxm(parts) && nxm.holds(parts),
                Err(NXMParseError::InvalidNXMUrl(_)) => url_parsed(s@) matches Some(parts) && !is_nxm(
                    parts,
                ),
                Err(NXMParseError::InvalidURL) => url_parsed(s@) is None,
                Err(NXMParseError::TooLong) => s@.len() > MAX_URL_TEXT,
            },
    {
        if s.unicode_len() > MAX_URL_TEXT {
            return Err(NXMParseError::TooLong);
        }
        let parts = match url_parts(s) {
            Some(parts) => parts,
            None => {
                return Err(NXMParseError::InvalidURL);
            },
        };
        match Self::try_from(&parts) {
            Ok(nxm) => Ok(nxm),
            Err(e) => Err(NXMParseError::InvalidNXMUrl(e)),
        }
    }
}

/// The decimal digits of an optional number.
pub open spec fn decimal_of(n: Option<u64>) -> Option<Seq<char>> {
    match n {
        Some(n) => Some(decimal(n as nat)),
        None => None,
    }
}

/// The address at which the site hands out the download links of a file
/// of a mod of a game.
pub fn download_link(
    apikey: String,
    game_domain_name: &str,
    id: u64,
    mod_id: u64,
    key: Option<&str>,
    expires: Option<u64>,
) -> (r: Result<String, LinkError>)
    ensures
        match r {
            Ok(text) => {
                &&& !link_too_long(
                    download_link_base(game_domain_name@, mod_id, id),
                    text_of(key),
                    decimal_of(expires),
                )
                &&& url_with_query(
                    download_link_base(game_domain_name@, mod_id, id),
                    download_link_pairs(text_of(key), decimal_of(expires)),
                ) == Some(text@)
            },
            Err(LinkError::TooLong) => link_too_long(
                download_link_base(game_domain_name@, mod_id, id),
                text_of(key),
                decimal_of(expires),
            ),
            Err(LinkError::Invalid) => {
                &&& !link_too_long(
                    download_link_base(game_domain_name@, mod_id, id),
                    text_of(key),
                    decimal_of(expires),
                )
                &&& url_with_query(
                    download_link_base(game_domain_name@, mod_id, id),
                    download_link_pairs(text_of(key), decimal_of(expires)),
                ) is None
            },
        },
{
    let file = NexusApi::new(apikey).game(game_domain_name.to_owned()).mod_(mod_id).file(id);
    match expires {
        Some(e) => {
            let mut text = String::new();
            push_decimal(&mut text, e);
            proof {
                assert(text@ =~= decimal(e as nat));
            }
            file.download_link(key, Some(text.as_str()))
        },
        None => file.download_link(key, None),
    }
}

} // verus!
