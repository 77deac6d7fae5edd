//! One declared surface, and the domain it reads.
//!
//! Every interpretation compiles this same declaration, which is what makes their agreement
//! evidence rather than coincidence. The domain here is the reference every one is held to.

use crate::http::message::{lossy_decoded, lossy_text, HttpErrorAlg};
use crate::http::method::{HttpMethod, HttpStatus, NOT_FOUND};
use crate::http::route::{endpoint_selector, DirectRoute, DirectRouteImpl, PartView};
use crate::text::{append_decimal, decimal, join_strings, joined, strings_view};
use vstd::prelude::*;
use vstd::string::*;

verus! {

/// Who a caller says they are, sent as cookies.
#[derive(Debug)]
pub struct Session {
    /// Which session the caller is in.
    pub session: String,
}

/// What a caller said about themselves in the headers they sent.
#[derive(Debug)]
pub struct Agent {
    /// What the caller says they are.
    pub user_agent: String,
}

/// One reading, sent as a form.
#[derive(Debug)]
pub struct Amount {
    /// What was read.
    pub value: u32,
}

/// Why a reading could not be read.
#[derive(Debug)]
pub struct ReadingError {
    message: String,
}

impl ReadingError {
    /// States that no reading is recorded under an id.
    pub fn missing() -> (r: Self)
        ensures
            r.spec_http_message() == "no such reading"@,
    {
        ReadingError { message: String::from_str("no such reading") }
    }
}

impl HttpErrorAlg for ReadingError {
    /// A reading that is not there is answered as nothing being found.
    open spec fn spec_http_status(&self) -> HttpStatus {
        NOT_FOUND
    }

    closed spec fn spec_http_message(&self) -> Seq<char> {
        self.message@
    }

    fn http_status(&self) -> (r: HttpStatus) {
        NOT_FOUND
    }

    fn http_message(&self) -> (r: String) {
        self.message.clone()
    }
}

/// Keeps whatever readings the domain has been told about.
pub trait ShopAlg {
    /// Returns the reading recorded for `id`, or why it could not be read.
    fn item(&self, id: u32) -> Result<u32, ReadingError>;

    /// Returns every reading.
    fn items(&self) -> Vec<u32>;

    /// Records `value` and returns it.
    fn add(&self, value: u32) -> u32;

    /// Notes what was sent and says what it made of it.
    fn note(&self, note: String) -> String;

    /// Forgets every reading.
    fn clear(&self);

    /// Returns where the readings actually live.
    fn home(&self) -> String;

    /// Returns the readings as a page.
    fn page(&self) -> String;

    /// Returns the readings as they are stored.
    fn stored(&self) -> Vec<u8>;

    /// Returns who the caller is in, as they said.
    fn who(&self, session: String) -> String;

    /// Returns what the caller says they are.
    fn agent(&self, agent: String) -> String;

    /// Returns the readings and how long they may be kept.
    fn cached(&self) -> (String, Vec<u32>);
}

/// The reference domain every interpretation is held to.
#[derive(Debug, Default, Clone, Copy)]
pub struct Shop;

impl ShopAlg for Shop {
    fn item(&self, id: u32) -> (r: Result<u32, ReadingError>)
        ensures
            id == 1 ==> r == Ok::<u32, ReadingError>(7),
            id != 1 ==> (r matches Err(error) && error.spec_http_message() == "no such reading"@),
    {
        if id == 1 {
            Ok(7)
        } else {
            Err(ReadingError::missing())
        }
    }

    fn items(&self) -> (r: Vec<u32>)
        ensures
            r@ == seq![7u32],
    {
        vec![7]
    }

    fn add(&self, value: u32) -> (r: u32)
        ensures
            r == value,
    {
        value
    }

    fn note(&self, note: String) -> (r: String)
        ensures
            r@ == "noted "@ + note@,
    {
        let mut r = String::from_str("noted ");
        r.append(note.as_str());
        r
    }

    fn clear(&self) {
    }

    fn home(&self) -> (r: String)
        ensures
            r@ == "/items"@,
    {
        String::from_str("/items")
    }

    fn page(&self) -> (r: String)
        ensures
            r@ == "<p>7</p>"@,
    {
        String::from_str("<p>7</p>")
    }

    fn stored(&self) -> (r: Vec<u8>)
        ensures
            r@ == seq![115u8, 101u8, 118u8, 101u8, 110u8],
    {
        vec![115u8, 101u8, 118u8, 101u8, 110u8]
    }

    fn who(&self, session: String) -> (r: String)
        ensures
            r@ == "known as "@ + session@,
    {
        let mut r = String::from_str("known as ");
        r.append(session.as_str());
        r
    }

    fn agent(&self, agent: String) -> (r: String)
        ensures
            r@ == "sent by "@ + agent@,
    {
        let mut r = String::from_str("sent by ");
        r.append(agent.as_str());
        r
    }

    fn cached(&self) -> (r: (String, Vec<u32>))
        ensures
            r.0@ == "max-age=60"@,
            r.1@ == seq![7u32],
    {
        (String::from_str("max-age=60"), vec![7])
    }
}

/// Every label the declared surface states, in declaration order.
pub fn surface_labels() -> (r: Vec<&'static str>)
    ensures
        r@.map_values(|label: &'static str| label@) == seq![
            "GET /item/{id}"@,
            "GET /items"@,
            "POST /items"@,
            "PUT /items"@,
            "PATCH /items"@,
            "DELETE /items"@,
            "GET /home"@,
            "GET /page"@,
            "GET /stored"@,
            "GET /session"@,
            "GET /agent"@,
            "GET /cached"@,
        ],
{
    let r = vec![
        "GET /item/{id}",
        "GET /items",
        "POST /items",
        "PUT /items",
        "PATCH /items",
        "DELETE /items",
        "GET /home",
        "GET /page",
        "GET /stored",
        "GET /session",
        "GET /agent",
        "GET /cached",
    ];
    proof {
        assert(r@.map_values(|label: &'static str| label@) =~= seq![
            "GET /item/{id}"@,
            "GET /items"@,
            "POST /items"@,
            "PUT /items"@,
            "PATCH /items"@,
            "DELETE /items"@,
            "GET /home"@,
            "GET /page"@,
            "GET /stored"@,
            "GET /session"@,
            "GET /agent"@,
            "GET /cached"@,
        ]);
    }
    r
}

/// Reads however many arguments a caller states.
pub trait WideAlg {
    /// Returns what the domain makes of everything stated.
    fn wide(&self, stated: Vec<String>) -> String;
}

impl WideAlg for Shop {
    /// How many arguments were stated, in decimal.
    fn wide(&self, stated: Vec<String>) -> (r: String)
        ensures
            r@ == decimal(stated@.len()),
    {
        let mut r = String::new();
        append_decimal(&mut r, stated.len() as u64);
        r
    }
}

/// A body the domain produces a piece at a time.
#[derive(Debug)]
pub struct Ticks {
    left: Vec<&'static str>,
}

impl Ticks {
    /// The pieces still to come, the last one next.
    pub closed spec fn left(&self) -> Seq<Seq<char>> {
        self.left@.map_values(|tick: &'static str| tick@)
    }

    /// Takes the next piece, as bytes, where one is left.
    pub fn next_chunk(&mut self) -> (r: Option<Vec<u8>>)
        ensures
            old(self).left().len() == 0 ==> r is None && final(self).left() == old(self).left(),
            old(self).left().len() > 0 ==> (r matches Some(chunk) && chunk@
                == vstd::utf8::encode_utf8(old(self).left().last()) && final(self).left() == old(
                self,
            ).left().drop_last()),
    {
        let ghost before = self.left@;
        match self.left.pop() {
            Some(tick) => {
                proof {
                    assert(self.left@.map_values(|tick: &'static str| tick@) =~= before.map_values(
                        |tick: &'static str| tick@,
                    ).drop_last());
                }
                Some(crate::http::message::utf8_bytes(tick))
            },
            None => None,
        }
    }
}

impl Default for Ticks {
    fn default() -> (r: Self)
        ensures
            r.left() == Seq::<Seq<char>>::empty(),
    {
        let r = Ticks { left: Vec::new() };
        proof {
            assert(r.left() =~= Seq::<Seq<char>>::empty());
        }
        r
    }
}

/// Answers with a body it produces a piece at a time.
pub trait TicksAlg {
    /// Returns what the domain has to say, a piece at a time.
    fn ticks(&self) -> Ticks;
}

impl TicksAlg for Shop {
    /// `one`, `two`, `three`, in that order.
    fn ticks(&self) -> (r: Ticks)
        ensures
            r.left() == seq!["three"@, "two"@, "one"@],
    {
        let r = Ticks { left: vec!["three", "two", "one"] };
        proof {
            assert(r.left() =~= seq!["three"@, "two"@, "one"@]);
        }
        r
    }
}

/// One part of a body sent as parts: the name it was sent under, where it states one, and what it
/// carried, chunk by chunk.
pub type SentPart = (Option<String>, Vec<Vec<u8>>);

/// The chunks of a part, one after another.
pub open spec fn concatenated(chunks: Seq<Vec<u8>>) -> Seq<u8>
    decreases chunks.len(),
{
    if chunks.len() == 0 {
        Seq::empty()
    } else {
        concatenated(chunks.drop_last()) + chunks.last()@
    }
}

/// How one part is stated: its name, `=`, and what it carried read as text.
pub open spec fn part_stated(name: Option<String>, chunks: Seq<Vec<u8>>) -> Seq<char> {
    let named = match name {
        Some(name) => name@,
        None => Seq::empty(),
    };
    named + "="@ + lossy_decoded(concatenated(chunks))
}

/// What a caller sent as parts, read the same way by every interpretation.
#[derive(Debug, Default)]
pub struct Upload {
    /// What each part was sent under, and what it carried.
    pub stated: Vec<String>,
}

impl Upload {
    /// Reads the parts a caller sent, each as `name=carried`, in the order they arrived.
    pub fn from_parts(parts: Vec<SentPart>) -> (r: Upload)
        ensures
            r.stated@.len() == parts@.len(),
            forall|k: int|
                0 <= k < parts@.len() ==> #[trigger] r.stated@[k]@ == part_stated(
                    parts@[k].0,
                    parts@[k].1@,
                ),
    {
        let mut stated: Vec<String> = Vec::new();
        let mut i: usize = 0;
        while i < parts.len()
            invariant
                i <= parts.len(),
                stated@.len() == i,
                forall|k: int|
                    0 <= k < i ==> #[trigger] stated@[k]@ == part_stated(
                        parts@[k].0,
                        parts@[k].1@,
                    ),
            decreases parts.len() - i,
        {
            let name = &parts[i].0;
            let chunks = &parts[i].1;
            let mut carried: Vec<u8> = Vec::new();
            let mut c: usize = 0;
            while c < chunks.len()
                invariant
                    c <= chunks.len(),
                    carried@ == concatenated(chunks@.take(c as int)),
                decreases chunks.len() - c,
            {
                proof {
                    assert(chunks@.take(c + 1).drop_last() =~= chunks@.take(c as int));
                }
                let mut piece = crate::http::message::copy_bytes(chunks[c].as_slice());
                carried.append(&mut piece);
                c = c + 1;
            }
            proof {
                assert(chunks@.take(c as int) =~= chunks@);
            }
            let mut line = match name {
                Some(name) => name.clone(),
                None => String::new(),
            };
            line.append("=");
            let text = lossy_text(carried.as_slice());
            line.append(text.as_str());
            stated.push(line);
            i = i + 1;
        }
        Upload { stated }
    }
}

/// Reads a body a caller sent as parts.
pub trait UploadAlg {
    /// Returns what the domain makes of everything the parts stated.
    fn uploaded(&self, stated: Vec<String>) -> String;
}

impl UploadAlg for Shop {
    /// Everything the parts stated, separated by `,`.
    fn uploaded(&self, stated: Vec<String>) -> (r: String)
        ensures
            r@ == joined(strings_view(stated@), ","@),
    {
        join_strings(stated.as_slice(), ",")
    }
}

/// The method and path of each endpoint the shared surface declares, in declaration order.
pub open spec fn shop_table() -> Seq<(HttpMethod, Seq<char>)> {
    seq![
        (HttpMethod::Get, "/item/:id"@),
        (HttpMethod::Get, "/items"@),
        (HttpMethod::Post, "/items"@),
        (HttpMethod::Put, "/items"@),
        (HttpMethod::Patch, "/items"@),
        (HttpMethod::Delete, "/items"@),
        (HttpMethod::Get, "/home"@),
        (HttpMethod::Get, "/page"@),
        (HttpMethod::Get, "/stored"@),
        (HttpMethod::Get, "/session"@),
        (HttpMethod::Get, "/agent"@),
        (HttpMethod::Get, "/cached"@),
    ]
}

/// The method and path of each endpoint the shared surface declares.
fn shop_entries() -> (r: Vec<(HttpMethod, &'static str)>)
    ensures
        r@.map_values(|entry: (HttpMethod, &'static str)| (entry.0, entry.1@)) == shop_table(),
{
    let r = vec![
        (HttpMethod::Get, "/item/:id"),
        (HttpMethod::Get, "/items"),
        (HttpMethod::Post, "/items"),
        (HttpMethod::Put, "/items"),
        (HttpMethod::Patch, "/items"),
        (HttpMethod::Delete, "/items"),
        (HttpMethod::Get, "/home"),
        (HttpMethod::Get, "/page"),
        (HttpMethod::Get, "/stored"),
        (HttpMethod::Get, "/session"),
        (HttpMethod::Get, "/agent"),
        (HttpMethod::Get, "/cached"),
    ];
    proof {
        assert(r@.map_values(|entry: (HttpMethod, &'static str)| (entry.0, entry.1@)) =~= shop_table());
    }
    r
}

/// The endpoint answering each operation of the shared surface.
pub struct ShopEndpoints<Endpoint> {
    /// `GET /item/:id`: one identified reading.
    pub item: Endpoint,
    /// `GET /items`: every reading.
    pub items: Endpoint,
    /// `POST /items`: a recording sent as a document.
    pub add: Endpoint,
    /// `PUT /items`: the same recording, sent as a form.
    pub fill: Endpoint,
    /// `PATCH /items`: a note, taken exactly as it arrived.
    pub note: Endpoint,
    /// `DELETE /items`: a removal.
    pub clear: Endpoint,
    /// `GET /home`: where the readings live.
    pub home: Endpoint,
    /// `GET /page`: the readings as a page.
    pub page: Endpoint,
    /// `GET /stored`: the readings as stored.
    pub stored: Endpoint,
    /// `GET /session`: who the caller says they are, from their cookies.
    pub who: Endpoint,
    /// `GET /agent`: what the caller says they are, from their headers.
    pub agent: Endpoint,
    /// `GET /cached`: every reading, and how long it may be kept.
    pub cached: Endpoint,
}

impl<Endpoint> ShopEndpoints<Endpoint> {
    /// The endpoints in the order the table declares them.
    pub open spec fn in_order(self) -> Seq<Endpoint> {
        seq![
            self.item,
            self.items,
            self.add,
            self.fill,
            self.note,
            self.clear,
            self.home,
            self.page,
            self.stored,
            self.who,
            self.agent,
            self.cached,
        ]
    }
}

/// Declares the surface every interpretation is held to: one endpoint per entry of the table, in
/// its order.
pub fn shop_api<Endpoint>(alg: &DirectRouteImpl, endpoints: ShopEndpoints<Endpoint>) -> (r: DirectRoute<
    Endpoint,
>)
    ensures
        r.endpoints() == endpoints.in_order(),
        r.selectors() == shop_table().map_values(
            |entry: (HttpMethod, Seq<char>)| endpoint_selector(entry.0, entry.1),
        ),
{
    let ghost stated = endpoints.in_order();
    let ShopEndpoints { item, items, add, fill, note, clear, home, page, stored, who, agent, cached } =
        endpoints;
    let mut listed: Vec<Endpoint> = Vec::new();
    listed.push(item);
    listed.push(items);
    listed.push(add);
    listed.push(fill);
    listed.push(note);
    listed.push(clear);
    listed.push(home);
    listed.push(page);
    listed.push(stored);
    listed.push(who);
    listed.push(agent);
    listed.push(cached);
    assert(listed@ =~= stated);
    shop_route(alg, listed)
}

/// One endpoint per entry of the table, in its order.
fn shop_route<Endpoint>(alg: &DirectRouteImpl, endpoints: Vec<Endpoint>) -> (r: DirectRoute<Endpoint>)
    requires
        endpoints@.len() == shop_table().len(),
    ensures
        r.endpoints() == endpoints@,
        r.selectors() == shop_table().map_values(
            |entry: (HttpMethod, Seq<char>)| endpoint_selector(entry.0, entry.1),
        ),
{
    let table = shop_entries();
    let ghost stated = shop_table();
    let ghost all = endpoints@;
    let mut route = alg.initial();
    let mut i: usize = 0;
    for endpoint in it: endpoints.into_iter()
        invariant
            i == it.index(),
            it.seq() == all,
            it.index() <= all.len(),
            all.len() == stated.len(),
            table@.len() == stated.len(),
            table@.map_values(|entry: (HttpMethod, &'static str)| (entry.0, entry.1@)) == stated,
            stated == shop_table(),
            route.endpoints() == all.take(it.index() as int),
            route.selectors() == stated.take(it.index() as int).map_values(
                |entry: (HttpMethod, Seq<char>)| endpoint_selector(entry.0, entry.1),
            ),
    {
        let ghost index = it.index() as int;
        let (method, path) = table[i];
        proof {
            assert(stated[index] == (method, path@));
        }
        let single = alg.at(method, path, endpoint);
        route = alg.coproduct(route, single);
        proof {
            assert(route.endpoints() =~= all.take(index + 1));
            assert(route.selectors() =~= stated.take(index + 1).map_values(
                |entry: (HttpMethod, Seq<char>)| endpoint_selector(entry.0, entry.1),
            ));
        }
        i = i + 1;
    }
    proof {
        assert(all.take(all.len() as int) =~= all);
        assert(stated.take(stated.len() as int) =~= stated);
    }
    route
}

/// Declares one endpoint reading however many arguments a caller states.
pub fn wide_api<Endpoint>(alg: &DirectRouteImpl, endpoint: Endpoint) -> (r: DirectRoute<Endpoint>)
    ensures
        r.selectors() == seq![endpoint_selector(HttpMethod::Post, "/wide"@)],
        r.endpoints() == seq![endpoint],
{
    alg.at(HttpMethod::Post, "/wide", endpoint)
}

/// Declares one endpoint answering with a body produced over time.
pub fn stream_api<Endpoint>(alg: &DirectRouteImpl, endpoint: Endpoint) -> (r: DirectRoute<Endpoint>)
    ensures
        r.selectors() == seq![endpoint_selector(HttpMethod::Get, "/ticks"@)],
        r.endpoints() == seq![endpoint],
{
    alg.at(HttpMethod::Get, "/ticks", endpoint)
}

/// Declares one endpoint reading a body that arrives as parts.
pub fn multipart_api<Endpoint>(alg: &DirectRouteImpl, endpoint: Endpoint) -> (r: DirectRoute<Endpoint>)
    ensures
        r.selectors() == seq![endpoint_selector(HttpMethod::Post, "/upload"@)],
        r.endpoints() == seq![endpoint],
{
    alg.at(HttpMethod::Post, "/upload", endpoint)
}

} // verus!
