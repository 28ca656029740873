//! Where a tile is fetched from and cached, and the decisions of a fetch: cache first,
//! then the server, with a bounded number of attempts.

use crate::decimal::{
    decimal, decimal_pad3, lemma_decimal_pad3_value, lemma_decimal_value,
    lemma_digits_end_at_separator, push_decimal,
};
use crate::mosaic::{decoded, Raster, RasterView};
use crate::tile::{side, TileCoordinate};
use vstd::prelude::*;
use vstd::string::StringExecFns;

verus! {

/// How many times the server is asked for one tile before the fetch gives up.
pub const RETRY_BUDGET: u32 = 5;

/// How long one answer of the server may take to arrive, in seconds.
pub const READ_TIMEOUT_SECS: u64 = 3;

/// The tile could not be had: every attempt that the budget allows has failed.
#[derive(Clone, Copy, Debug, PartialEq, Eq, Structural)]
pub struct TileUnavailableError {
    pub tile: TileCoordinate,
}

/// The address under which the server offers `tile`.
pub open spec fn spec_tile_url(tile: TileCoordinate) -> Seq<char> {
    "http://a.tile.opencyclemap.org/cycle/"@ + decimal(tile.zoom as nat) + seq!['/'] + decimal(
        tile.x as nat,
    ) + seq!['/'] + decimal(tile.y as nat) + ".png"@
}

/// The address under which the server offers `tile`: the fixed prefix, then zoom level,
/// column and row in decimal, parted by slashes, then the extension.
pub fn tile_url(tile: TileCoordinate) -> (url: String)
    ensures
        url@ == spec_tile_url(tile),
{
    let mut url = String::from_str("http://a.tile.opencyclemap.org/cycle/");
    push_decimal(&mut url, tile.zoom as u64);
    url.append("/");
    push_decimal(&mut url, tile.x as u64);
    url.append("/");
    push_decimal(&mut url, tile.y as u64);
    url.append(".png");
    proof {
        reveal_strlit("/");
        assert("/"@ =~= seq!['/']);
        assert(url@ =~= spec_tile_url(tile));
    }
    url
}

/// A text, a separator and what follows, in one.
pub open spec fn joined(head: Seq<char>, sep: char, rest: Seq<char>) -> Seq<char> {
    head + seq![sep] + rest
}

/// The path, below the cache's root, of the file that holds a tile: the zoom level,
/// then column and row, each split into its thousands and the rest and written with
/// three digits at least, all parted by slashes, then a dot and the extension.
pub open spec fn spec_ts_path(zoom: u8, x: u32, y: u32, ext: Seq<char>) -> Seq<char> {
    joined(
        decimal(zoom as nat),
        '/',
        joined(
            decimal_pad3((x / 1000) as nat),
            '/',
            joined(
                decimal_pad3((x % 1000) as nat),
                '/',
                joined(
                    decimal_pad3((y / 1000) as nat),
                    '/',
                    joined(decimal_pad3((y % 1000) as nat), '.', ext),
                ),
            ),
        ),
    )
}

/// `slippy_map_tiles::Tile::ts_path`, on the tile that `Tile::new` makes of the three
/// numbers: the zoom level, then column and row split at the thousand and padded with
/// zeros to three digits, parted by slashes, then a dot and the extension. `Tile::new`
/// gives no tile for an address outside the world, which the precondition leaves out.
#[verifier::external_body]
fn ts_path(zoom: u8, x: u32, y: u32, ext: &str) -> (path: String)
    requires
        zoom <= crate::tile::MAX_ZOOM,
        x < side(zoom as nat),
        y < side(zoom as nat),
    ensures
        path@ == spec_ts_path(zoom, x, y, ext@),
{
    slippy_map_tiles::Tile::new(zoom, x, y).unwrap().ts_path(ext)
}

/// The path, below the cache's root, of the file that holds `tile`.
pub fn cache_path(tile: TileCoordinate) -> (path: String)
    requires
        tile.wf(),
    ensures
        path@ == spec_ts_path(tile.zoom, tile.x, tile.y, "png"@),
{
    ts_path(tile.zoom, tile.x, tile.y, "png")
}

/// Two padded numbers, each followed by the same separator, make the same text only
/// where the numbers are the same and what follows is the same.
proof fn lemma_joined_pad3(m: nat, r1: Seq<char>, n: nat, r2: Seq<char>, sep: char)
    requires
        sep == '/' || sep == '.',
        joined(decimal_pad3(m), sep, r1) == joined(decimal_pad3(n), sep, r2),
    ensures
        m == n,
        r1 == r2,
{
    lemma_decimal_pad3_value(m);
    lemma_decimal_pad3_value(n);
    lemma_digits_end_at_separator(decimal_pad3(m), r1, decimal_pad3(n), r2, sep);
}

/// Two numbers, each followed by a slash, make the same text only where the numbers
/// are the same and what follows is the same.
proof fn lemma_joined_decimal(m: nat, r1: Seq<char>, n: nat, r2: Seq<char>)
    requires
        joined(decimal(m), '/', r1) == joined(decimal(n), '/', r2),
    ensures
        m == n,
        r1 == r2,
{
    lemma_decimal_value(m);
    lemma_decimal_value(n);
    lemma_digits_end_at_separator(decimal(m), r1, decimal(n), r2, '/');
}

/// The cache holds one file for each tile: two tiles with the same path are the same
/// tile.
pub proof fn lemma_cache_path_is_injective(a: TileCoordinate, b: TileCoordinate, ext: Seq<char>)
    requires
        spec_ts_path(a.zoom, a.x, a.y, ext) == spec_ts_path(b.zoom, b.x, b.y, ext),
    ensures
        a == b,
{
    let a4 = joined(decimal_pad3((a.y % 1000) as nat), '.', ext);
    let a3 = joined(decimal_pad3((a.y / 1000) as nat), '/', a4);
    let a2 = joined(decimal_pad3((a.x % 1000) as nat), '/', a3);
    let a1 = joined(decimal_pad3((a.x / 1000) as nat), '/', a2);
    let b4 = joined(decimal_pad3((b.y % 1000) as nat), '.', ext);
    let b3 = joined(decimal_pad3((b.y / 1000) as nat), '/', b4);
    let b2 = joined(decimal_pad3((b.x % 1000) as nat), '/', b3);
    let b1 = joined(decimal_pad3((b.x / 1000) as nat), '/', b2);
    lemma_joined_decimal(a.zoom as nat, a1, b.zoom as nat, b1);
    lemma_joined_pad3((a.x / 1000) as nat, a2, (b.x / 1000) as nat, b2, '/');
    lemma_joined_pad3((a.x % 1000) as nat, a3, (b.x % 1000) as nat, b3, '/');
    lemma_joined_pad3((a.y / 1000) as nat, a4, (b.y / 1000) as nat, b4, '/');
    lemma_joined_pad3((a.y % 1000) as nat, ext, (b.y % 1000) as nat, ext, '.');
}

/// Whether bytes were had and encode a PNG image.
pub open spec fn is_image(bytes: Option<&[u8]>) -> bool {
    bytes is Some && decoded(bytes->0@) is Some
}

/// Width, height and samples of an image, as decoding reports them.
pub open spec fn spec_pixels(image: RasterView) -> (u32, u32, Seq<u8>) {
    (image.width as u32, image.height as u32, image.samples)
}

/// Where a fetch stands.
#[derive(Clone, Copy, Debug, PartialEq, Eq, Structural)]
pub enum FetchPhase {
    /// The cache is being read.
    ReadingCache,
    /// The server has been asked and its answer is awaited.
    Downloading,
    /// The tile was had, from the cache or from the server.
    Delivered,
    /// Every attempt that the budget allows has failed.
    GaveUp,
}

/// The state of the fetch of one tile.
#[derive(Clone, Copy, Debug, PartialEq, Eq, Structural)]
pub struct Fetch {
    pub tile: TileCoordinate,
    pub phase: FetchPhase,
    /// How many attempts at the server have failed so far.
    pub failures: u32,
}

/// What is to be done next for a fetch.
pub enum FetchAction {
    /// Ask the server at `url`, and report the answer.
    Download { url: String },
    /// The tile is had. Where `store` is set, the image came from the server, and the
    /// body of the answer is to be written to the cache before the image is used; a
    /// failure to write it does not undo the fetch.
    Deliver { image: Raster, store: bool },
    /// The tile cannot be had.
    GiveUp { error: TileUnavailableError },
}

impl Fetch {
    /// The tile is valid, and while the fetch goes on the failures are within budget.
    pub open spec fn wf(self) -> bool {
        &&& self.tile.wf()
        &&& self.phase == FetchPhase::ReadingCache ==> self.failures == 0
        &&& self.phase == FetchPhase::Downloading ==> self.failures < RETRY_BUDGET
    }

    /// The state after the cache held no readable image: the server is asked.
    pub open spec fn spec_after_miss(self) -> Fetch {
        Fetch { tile: self.tile, phase: FetchPhase::Downloading, failures: 0 }
    }

    /// The state after the tile was had.
    pub open spec fn spec_after_success(self) -> Fetch {
        Fetch { tile: self.tile, phase: FetchPhase::Delivered, failures: self.failures }
    }

    /// The state after one more attempt at the server has failed: the fetch gives up
    /// when the budget is spent, and goes on otherwise.
    pub open spec fn spec_after_failure(self) -> Fetch {
        Fetch {
            tile: self.tile,
            phase: if self.failures + 1 >= RETRY_BUDGET {
                FetchPhase::GaveUp
            } else {
                FetchPhase::Downloading
            },
            failures: (self.failures + 1) as u32,
        }
    }

    /// The state after `n` more attempts at the server have failed in a row.
    pub open spec fn spec_after_failures(self, n: nat) -> Fetch
        decreases n,
    {
        if n == 0 || self.phase != FetchPhase::Downloading {
            self
        } else {
            self.spec_after_failure().spec_after_failures((n - 1) as nat)
        }
    }

    /// Whether `action` asks the server for the tile of this fetch.
    pub open spec fn asks_server(self, action: FetchAction) -> bool {
        action matches FetchAction::Download { url } && url@ == spec_tile_url(self.tile)
    }

    /// Whether `action` gives up on the tile of this fetch.
    pub open spec fn gives_up(self, action: FetchAction) -> bool {
        action matches FetchAction::GiveUp { error } && error == (TileUnavailableError {
            tile: self.tile,
        })
    }

    /// Whether `action` is the one that follows a failed attempt and leads to the state
    /// `next`: to give up, or to ask the server again.
    pub open spec fn follows_failure(self, next: Fetch, action: FetchAction) -> bool {
        &&& next == self.spec_after_failure()
        &&& if next.phase == FetchPhase::GaveUp {
            self.gives_up(action)
        } else {
            self.asks_server(action)
        }
    }

    /// Begins the fetch of `tile`. The first thing to do is to read the cache, at the
    /// path that `cache_path` gives.
    pub fn begin(tile: TileCoordinate) -> (f: Fetch)
        ensures
            f == (Fetch { tile, phase: FetchPhase::ReadingCache, failures: 0 }),
    {
        Fetch { tile, phase: FetchPhase::ReadingCache, failures: 0 }
    }

    /// Takes what reading the cache and decoding it gave. An image is delivered as it
    /// is, with nothing to store and the server never asked; without one the server
    /// is asked.
    pub fn on_cache_image(&mut self, image: Option<Raster>) -> (action: FetchAction)
        requires
            old(self).wf(),
            old(self).phase == FetchPhase::ReadingCache,
        ensures
            final(self).wf(),
            image is Some ==> *final(self) == old(self).spec_after_success() && (
            action matches FetchAction::Deliver { image: delivered, store } && delivered
                == image->0 && !store),
            image is None ==> *final(self) == old(self).spec_after_miss() && old(self).asks_server(
                action,
            ),
    {
        match image {
            Some(img) => {
                self.phase = FetchPhase::Delivered;
                FetchAction::Deliver { image: img, store: false }
            },
            None => {
                self.phase = FetchPhase::Downloading;
                FetchAction::Download { url: tile_url(self.tile) }
            },
        }
    }

    /// Takes what reading the cache gave: the bytes of the file, or nothing where there
    /// was no readable file. Bytes that decode are a hit; anything else is a miss.
    pub fn on_cache(&mut self, cached: Option<&[u8]>) -> (action: FetchAction)
        requires
            old(self).wf(),
            old(self).phase == FetchPhase::ReadingCache,
        ensures
            final(self).wf(),
            is_image(cached) ==> *final(self) == old(self).spec_after_success() && (
            action matches FetchAction::Deliver { image, store } && !store && image@.wf()
                && decoded(cached->0@) == Some(spec_pixels(image@))),
            !is_image(cached) ==> *final(self) == old(self).spec_after_miss() && old(
                self,
            ).asks_server(action),
    {
        let image = match cached {
            Some(bytes) => Raster::decode(bytes),
            None => None,
        };
        self.on_cache_image(image)
    }

    /// Takes the failure of one attempt at the server. The fetch gives up when this
    /// was the last attempt that the budget allows, and asks again otherwise.
    pub fn on_failure(&mut self) -> (action: FetchAction)
        requires
            old(self).wf(),
            old(self).phase == FetchPhase::Downloading,
        ensures
            final(self).wf(),
            old(self).follows_failure(*final(self), action),
    {
        self.failures = self.failures + 1;
        if self.failures >= RETRY_BUDGET {
            self.phase = FetchPhase::GaveUp;
            FetchAction::GiveUp { error: TileUnavailableError { tile: self.tile } }
        } else {
            FetchAction::Download { url: tile_url(self.tile) }
        }
    }

    /// Takes what decoding the body of the server's answer gave. An image is delivered
    /// and the body is to be stored in the cache; a body that is no image counts as a
    /// failed attempt.
    pub fn on_body_image(&mut self, image: Option<Raster>) -> (action: FetchAction)
        requires
            old(self).wf(),
            old(self).phase == FetchPhase::Downloading,
        ensures
            final(self).wf(),
            image is Some ==> *final(self) == old(self).spec_after_success() && (
            action matches FetchAction::Deliver { image: delivered, store } && delivered
                == image->0 && store),
            image is None ==> old(self).follows_failure(*final(self), action),
    {
        match image {
            Some(img) => {
                self.phase = FetchPhase::Delivered;
                FetchAction::Deliver { image: img, store: true }
            },
            None => self.on_failure(),
        }
    }

    /// Takes the server's answer: the body, or nothing where the request failed. A
    /// body that decodes is delivered and is to be stored; anything else counts as a
    /// failed attempt.
    pub fn on_response(&mut self, body: Option<&[u8]>) -> (action: FetchAction)
        requires
            old(self).wf(),
            old(self).phase == FetchPhase::Downloading,
        ensures
            final(self).wf(),
            is_image(body) ==> *final(self) == old(self).spec_after_success() && (
            action matches FetchAction::Deliver { image, store } && store && image@.wf()
                && decoded(body->0@) == Some(spec_pixels(image@))),
            !is_image(body) ==> old(self).follows_failure(*final(self), action),
    {
        match body {
            Some(bytes) => {
                let image = Raster::decode(bytes);
                self.on_body_image(image)
            },
            None => self.on_failure(),
        }
    }
}

/// A fetch that has just turned to the server gives up after exactly as many failed
/// attempts in a row as the budget allows, and not before.
pub proof fn lemma_gives_up_when_budget_is_spent(f: Fetch, n: nat)
    requires
        f.phase == FetchPhase::Downloading,
        f.failures == 0,
    ensures
        n < RETRY_BUDGET ==> f.spec_after_failures(n).phase == FetchPhase::Downloading,
        n >= RETRY_BUDGET ==> f.spec_after_failures(n).phase == FetchPhase::GaveUp,
        n <= RETRY_BUDGET ==> f.spec_after_failures(n).failures == n,
{
    let f1 = f.spec_after_failure();
    let f2 = f1.spec_after_failure();
    let f3 = f2.spec_after_failure();
    let f4 = f3.spec_after_failure();
    let f5 = f4.spec_after_failure();
    reveal_with_fuel(Fetch::spec_after_failures, 7);
    if n >= 5 {
        assert(f.spec_after_failures(n) == f5.spec_after_failures((n - 5) as nat));
        assert(f5.phase == FetchPhase::GaveUp);
    }
}

/// What a whole fetch comes to.
pub enum Outcome {
    /// The tile was had after `requests` requests to the server. Where `stored` holds
    /// a number, the image is what the answer of that number encodes, and that answer
    /// is to be stored in the cache.
    Delivered { image: (u32, u32, Seq<u8>), requests: nat, stored: Option<nat> },
    /// The fetch gave up after `requests` requests to the server.
    GaveUp { requests: nat },
    /// The answer to request number `requests` is still to come.
    Waiting { requests: nat },
}

/// Whether an answer of the server carries a body that encodes an image.
pub open spec fn is_good_answer(answer: Option<Vec<u8>>) -> bool {
    answer is Some && decoded(answer->0@) is Some
}

/// What a fetch comes to once `k` attempts have failed, where `answers` holds the
/// server's answers in order, nothing standing for a failed request.
pub open spec fn spec_download(answers: Seq<Option<Vec<u8>>>, k: nat) -> Outcome
    decreases answers.len() - k,
{
    if k >= RETRY_BUDGET {
        Outcome::GaveUp { requests: k }
    } else if k >= answers.len() {
        Outcome::Waiting { requests: k + 1 }
    } else if is_good_answer(answers[k as int]) {
        Outcome::Delivered {
            image: decoded(answers[k as int]->0@)->0,
            requests: k + 1,
            stored: Some(k),
        }
    } else {
        spec_download(answers, k + 1)
    }
}

/// What a fetch comes to, where `cached` is what the cache holds for the tile and
/// `answers` holds the server's answers in order. An image in the cache is delivered
/// with no request made; otherwise the first answer that encodes an image is, if it
/// comes within the budget.
pub open spec fn spec_fetch(cached: Option<&[u8]>, answers: Seq<Option<Vec<u8>>>) -> Outcome {
    if is_image(cached) {
        Outcome::Delivered { image: decoded(cached->0@)->0, requests: 0, stored: None }
    } else {
        spec_download(answers, 0)
    }
}

/// What a replayed fetch came to.
pub enum Replay {
    /// The tile was had after `requests` requests to the server. Where `stored` holds
    /// a number, the answer of that number is to be stored in the cache.
    Delivered { image: Raster, requests: u32, stored: Option<usize> },
    /// The fetch gave up after `requests` requests to the server.
    GaveUp { error: TileUnavailableError, requests: u32 },
    /// The answer to request number `requests` is still to come.
    Waiting { requests: u32 },
}

impl Replay {
    /// Whether this is the outcome `outcome` for the tile `tile`.
    pub open spec fn is_outcome(self, tile: TileCoordinate, outcome: Outcome) -> bool {
        match self {
            Replay::Delivered { image, requests, stored } => image@.wf() && outcome == (
            Outcome::Delivered {
                image: spec_pixels(image@),
                requests: requests as nat,
                stored: match stored {
                    Some(i) => Some(i as nat),
                    None => None,
                },
            }),
            Replay::GaveUp { error, requests } => error == (TileUnavailableError { tile })
                && outcome == (Outcome::GaveUp { requests: requests as nat }),
            Replay::Waiting { requests } => outcome == (Outcome::Waiting {
                requests: requests as nat,
            }),
        }
    }
}

/// Runs the fetch of `tile` against what the cache holds and a record of the server's
/// answers, nothing standing for a failed request. Answers beyond the one that ends
/// the fetch are not looked at.
pub fn replay(tile: TileCoordinate, cached: Option<&[u8]>, answers: &Vec<Option<Vec<u8>>>) -> (r:
    Replay)
    requires
        tile.wf(),
    ensures
        r.is_outcome(tile, spec_fetch(cached, answers@)),
{
    let mut fetch = Fetch::begin(tile);
    match fetch.on_cache(cached) {
        FetchAction::Deliver { image, .. } => {
            return Replay::Delivered { image, requests: 0, stored: None };
        },
        _ => {},
    }
    let mut k: usize = 0;
    while k < answers.len()
        invariant
            k <= answers@.len(),
            k < RETRY_BUDGET,
            tile.wf(),
            fetch == (Fetch { tile, phase: FetchPhase::Downloading, failures: k as u32 }),
            spec_fetch(cached, answers@) == spec_download(answers@, k as nat),
        decreases answers@.len() - k,
    {
        let body: Option<&[u8]> = match &answers[k] {
            Some(bytes) => Some(bytes.as_slice()),
            None => None,
        };
        assert(is_image(body) == is_good_answer(answers@[k as int]));
        match fetch.on_response(body) {
            FetchAction::Deliver { image, .. } => {
                return Replay::Delivered { image, requests: (k + 1) as u32, stored: Some(k) };
            },
            FetchAction::GiveUp { error } => {
                assert(spec_download(answers@, (k + 1) as nat) == (Outcome::GaveUp {
                    requests: (k + 1) as nat,
                }));
                return Replay::GaveUp { error, requests: (k + 1) as u32 };
            },
            FetchAction::Download { .. } => {
                k = k + 1;
            },
        }
    }
    Replay::Waiting { requests: (k + 1) as u32 }
}

/// Once a fetch has had a tile from the server and the answer was stored in the cache,
/// a later fetch of the tile makes no request to the server and delivers the same
/// pixels, whatever the server would answer by then.
pub proof fn lemma_stored_tile_is_a_hit(
    cached: Option<&[u8]>,
    answers: Seq<Option<Vec<u8>>>,
    stored: &[u8],
    later: Seq<Option<Vec<u8>>>,
)
    requires
        spec_fetch(cached, answers) is Delivered,
        spec_fetch(cached, answers)->stored is Some,
        stored@ == answers[spec_fetch(cached, answers)->stored->0 as int]->0@,
    ensures
        spec_fetch(Some(stored), later) == (Outcome::Delivered {
            image: spec_fetch(cached, answers)->image,
            requests: 0,
            stored: None,
        }),
{
    lemma_download_delivers_an_answer(answers, 0);
}

/// A tile that the cache holds is delivered from there again and again: the same
/// pixels each time, and never a request to the server.
pub proof fn lemma_cache_hit_repeats(
    cached: Option<&[u8]>,
    answers: Seq<Option<Vec<u8>>>,
    later: Seq<Option<Vec<u8>>>,
)
    requires
        is_image(cached),
    ensures
        spec_fetch(cached, answers) == spec_fetch(cached, later),
        spec_fetch(cached, answers)->Delivered_requests == 0,
        spec_fetch(cached, answers) is Delivered,
{
}

/// Where the server delivers, the image is what the stored answer encodes, and that
/// answer came within the budget.
pub proof fn lemma_download_delivers_an_answer(answers: Seq<Option<Vec<u8>>>, k: nat)
    requires
        spec_download(answers, k) is Delivered,
    ensures
        spec_download(answers, k)->stored is Some,
        k <= spec_download(answers, k)->stored->0 < answers.len(),
        spec_download(answers, k)->stored->0 < RETRY_BUDGET,
        spec_download(answers, k)->Delivered_requests == spec_download(answers, k)->stored->0 + 1,
        is_good_answer(answers[spec_download(answers, k)->stored->0 as int]),
        spec_download(answers, k)->image == decoded(
            answers[spec_download(answers, k)->stored->0 as int]->0@,
        )->0,
    decreases answers.len() - k,
{
    if k >= RETRY_BUDGET {
    } else if k >= answers.len() {
    } else if is_good_answer(answers[k as int]) {
    } else {
        lemma_download_delivers_an_answer(answers, k + 1);
    }
}

/// Where the first answers all fail, as many of them as the budget allows, the fetch
/// gives up, however many answers follow; and it gave up only if that many failed.
pub proof fn lemma_gives_up_iff_budget_fails(answers: Seq<Option<Vec<u8>>>)
    ensures
        spec_download(answers, 0) is GaveUp <==> answers.len() >= RETRY_BUDGET && forall|i: int|
            0 <= i < RETRY_BUDGET ==> !is_good_answer(#[trigger] answers[i]),
        spec_download(answers, 0) is GaveUp ==> spec_download(answers, 0)->GaveUp_requests
            == RETRY_BUDGET,
{
    lemma_download_from(answers, 0);
}

/// What a fetch comes to once `k` attempts have failed, told by the answers that are
/// still to be looked at.
proof fn lemma_download_from(answers: Seq<Option<Vec<u8>>>, k: nat)
    requires
        k <= RETRY_BUDGET,
        k <= answers.len(),
    ensures
        spec_download(answers, k) is GaveUp <==> answers.len() >= RETRY_BUDGET && forall|i: int|
            k <= i < RETRY_BUDGET ==> !is_good_answer(#[trigger] answers[i]),
        spec_download(answers, k) is GaveUp ==> spec_download(answers, k)->GaveUp_requests
            == RETRY_BUDGET,
    decreases RETRY_BUDGET - k,
{
    if k >= RETRY_BUDGET {
    } else if k >= answers.len() {
    } else if is_good_answer(answers[k as int]) {
    } else {
        lemma_download_from(answers, k + 1);
        if answers.len() >= RETRY_BUDGET && (forall|i: int|
            k + 1 <= i < RETRY_BUDGET ==> !is_good_answer(#[trigger] answers[i])) {
            assert forall|i: int| k <= i < RETRY_BUDGET implies !is_good_answer(
                #[trigger] answers[i],
            ) by {}
        }
    }
}

} // verus!
