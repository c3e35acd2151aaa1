//! Measuring and reporting transfers.

use vstd::prelude::*;
use vstd::hash_map::StringHashMap;
use crate::numbers;
use crate::numbers::decimal_text;
use crate::split::{without_prefix, without_suffix};
use crate::server::{APP_PREFIX, DOWNLOAD_SUFFIX, PROGRESS_SUFFIX};
use crate::text;
use crate::text::{push_text, same_text};

verus! {

/// The state of a transfer under way.
pub const RUNNING: &'static str = "running";

/// How long a report holds, in milliseconds.
pub const REPORT_INTERVAL_MS: u128 = 350;

/// How far a transfer had come when it was last looked at.
#[derive(Clone, Copy, Debug)]
pub struct TransferSpeedSample {
    pub transferred: u64,
    pub timestamp_ms: u128,
    pub speed: u64,
}

/// The last sample of each transfer.
pub struct SpeedSamples {
    table: StringHashMap<TransferSpeedSample>,
}

impl View for SpeedSamples {
    type V = Map<Seq<char>, TransferSpeedSample>;

    closed spec fn view(&self) -> Map<Seq<char>, TransferSpeedSample> {
        self.table@
    }
}

impl SpeedSamples {
    /// No samples.
    pub fn new() -> (r: Self)
        ensures
            r@ == Map::<Seq<char>, TransferSpeedSample>::empty(),
    {
        SpeedSamples { table: StringHashMap::new() }
    }

    fn put(&mut self, key: &str, sample: TransferSpeedSample)
        ensures
            final(self)@ == old(self)@.insert(key@, sample),
    {
        self.table.insert(key.to_string(), sample);
    }

    fn last(&self, key: &str) -> (r: Option<TransferSpeedSample>)
        ensures
            match r {
                Some(sample) => self@.contains_key(key@) && self@[key@] == sample,
                None => !self@.contains_key(key@),
            },
    {
        match self.table.get(key) {
            Some(sample) => Some(*sample),
            None => None,
        }
    }
}

/// The name under which a transfer is known.
pub open spec fn key_of(direction: Seq<char>, app_id: Seq<char>) -> Seq<char> {
    direction + seq!['-'] + app_id
}

/// The name under which a transfer is known.
pub fn transfer_key(direction: &str, app_id: &str) -> (r: String)
    ensures
        r@ == key_of(direction@, app_id@),
{
    let mut key = direction.to_string();
    key.push('-');
    push_text(&mut key, app_id);
    assert(key@ =~= key_of(direction@, app_id@));
    key
}

/// Transfers of different applications in one direction are kept apart.
pub proof fn law_keys_differ(direction: Seq<char>, a: Seq<char>, b: Seq<char>)
    requires
        a != b,
    ensures
        key_of(direction, a) != key_of(direction, b),
{
    if key_of(direction, a) == key_of(direction, b) {
        let n = direction.len() + 1;
        assert(a =~= key_of(direction, a).skip(n as int));
        assert(b =~= key_of(direction, b).skip(n as int));
    }
}

/// The speed of a transfer, in bytes per second: what came since the last
/// sample over the time that went by. Where time stood still or the count fell
/// back, the last speed holds; the first sample has none. The count of bytes
/// per second is kept in sixty-four bits.
pub open spec fn speed_since(
    last: Option<TransferSpeedSample>,
    transferred: u64,
    now_ms: u128,
) -> u64 {
    match last {
        Some(s) => if transferred >= s.transferred && now_ms > s.timestamp_ms {
            (((transferred - s.transferred) * 1000 / (now_ms - s.timestamp_ms))
                % 0x1_0000_0000_0000_0000) as u64
        } else {
            s.speed
        },
        None => 0,
    }
}

/// The last sample of a transfer.
pub open spec fn last_sample(samples: Map<Seq<char>, TransferSpeedSample>, key: Seq<char>) -> Option<
    TransferSpeedSample,
> {
    if samples.contains_key(key) {
        Some(samples[key])
    } else {
        None
    }
}

fn bytes_per_second(delta_bytes: u64, delta_ms: u128) -> (r: u64)
    requires
        delta_ms > 0,
    ensures
        r == (delta_bytes * 1000 / (delta_ms as int)) % 0x1_0000_0000_0000_0000,
{
    let scaled: u128 = delta_bytes as u128 * 1000;
    let speed: u128 = scaled / delta_ms;
    assert(speed as u64 == speed % 0x1_0000_0000_0000_0000) by (bit_vector);
    speed as u64
}

/// The speed of a transfer at a new sample, which takes the place of the last.
/// A transfer that is not under way has no speed.
pub fn calculate_transfer_speed(
    samples: &mut SpeedSamples,
    key: &str,
    transferred: u64,
    status: &str,
    now_ms: u128,
) -> (r: u64)
    ensures
        r == if status@ == RUNNING@ {
            speed_since(last_sample(old(samples)@, key@), transferred, now_ms)
        } else {
            0
        },
        final(samples)@ == old(samples)@.insert(
            key@,
            (TransferSpeedSample { transferred, timestamp_ms: now_ms, speed: r }),
        ),
{
    if !same_text(status, RUNNING) {
        samples.put(key, TransferSpeedSample { transferred, timestamp_ms: now_ms, speed: 0 });
        return 0;
    }
    let speed: u64 = match samples.last(key) {
        Some(previous) => {
            if transferred >= previous.transferred && now_ms > previous.timestamp_ms {
                bytes_per_second(
                    transferred - previous.transferred,
                    now_ms - previous.timestamp_ms,
                )
            } else {
                previous.speed
            }
        },
        None => 0,
    };
    samples.put(key, TransferSpeedSample { transferred, timestamp_ms: now_ms, speed });
    speed
}

/// Whether it is time for a report: the last one is old, or the transfer is
/// done.
pub fn wants_report(elapsed_ms: u128, transferred: u64, total: u64) -> (r: bool)
    ensures
        r == (elapsed_ms > REPORT_INTERVAL_MS || transferred == total),
{
    elapsed_ms > REPORT_INTERVAL_MS || transferred == total
}

/// The part of the display that stands for the work that is done.
pub open spec fn scaled(done: nat, total: nat, display: nat) -> nat {
    if total == 0 {
        0
    } else if done * display / total > display {
        display
    } else {
        (done * display / total) as nat
    }
}

proof fn lemma_product_fits(a: u64, b: u64)
    ensures
        0 <= a * b < 0x1_0000_0000_0000_0000_0000_0000_0000_0000,
{
    assert(0 <= a * b <= 0xffff_ffff_ffff_ffff * 0xffff_ffff_ffff_ffff) by (nonlinear_arith)
        requires
            0 <= a <= 0xffff_ffff_ffff_ffff,
            0 <= b <= 0xffff_ffff_ffff_ffff,
    ;
}

/// What a packing that has come so far reports: nothing where the last report
/// still holds and there is work left, unless it must.
pub fn zip_progress(
    work_done: u64,
    total_work: u64,
    display_total: u64,
    elapsed_ms: u128,
    force: bool,
) -> (r: Option<u64>)
    ensures
        match r {
            None => !force && elapsed_ms <= REPORT_INTERVAL_MS && work_done < total_work,
            Some(shown) => (force || elapsed_ms > REPORT_INTERVAL_MS || work_done >= total_work)
                && shown == scaled(work_done as nat, total_work as nat, display_total as nat),
        },
{
    if !force && elapsed_ms <= REPORT_INTERVAL_MS && work_done < total_work {
        return None;
    }
    if total_work == 0 {
        return Some(0);
    }
    proof {
        lemma_product_fits(work_done, display_total);
    }
    let product: u128 = work_done as u128 * display_total as u128;
    let shown: u128 = product / total_work as u128;
    if shown > display_total as u128 {
        Some(display_total)
    } else {
        Some(shown as u64)
    }
}

/// Progress never shows more than there is, and shows all of it once the work
/// is done.
pub proof fn law_scaled(done: nat, total: nat, display: nat)
    ensures
        scaled(done, total, display) <= display,
        total > 0 && done >= total ==> scaled(done, total, display) == display,
{
    if total > 0 && done >= total {
        assert(done * display / total >= display) by (nonlinear_arith)
            requires
                total > 0,
                done >= total,
                display >= 0,
        ;
    }
}

/// How far a packing has come.
#[derive(Debug)]
pub struct PackProgress {
    packed: u64,
    total: u64,
}

impl PackProgress {
    /// The bytes that were packed, as far as they can be counted.
    pub closed spec fn packed(self) -> u64 {
        self.packed
    }

    /// The bytes that there are to pack.
    pub closed spec fn total(self) -> u64 {
        self.total
    }

    /// Nothing was packed yet.
    pub fn new(total: u64) -> (r: Self)
        ensures
            r.packed() == 0,
            r.total() == total,
    {
        PackProgress { packed: 0, total }
    }

    /// Takes note of bytes that were packed.
    pub fn add(&mut self, count: usize)
        ensures
            final(self).total() == old(self).total(),
            final(self).packed() == if old(self).packed() + count > u64::MAX {
                u64::MAX
            } else {
                (old(self).packed() + count) as u64
            },
    {
        if count as u64 > 0xffff_ffff_ffff_ffff - self.packed {
            self.packed = 0xffff_ffff_ffff_ffff;
        } else {
            self.packed = self.packed + count as u64;
        }
    }

    /// What is reported of the packing under way.
    pub fn report(&self, elapsed_ms: u128) -> (r: Option<u64>)
        ensures
            match r {
                None => elapsed_ms <= REPORT_INTERVAL_MS && self.packed() < self.total(),
                Some(shown) => (elapsed_ms > REPORT_INTERVAL_MS || self.packed() >= self.total())
                    && shown == scaled(
                    self.packed() as nat,
                    self.total() as nat,
                    self.total() as nat,
                ),
            },
    {
        zip_progress(self.packed, self.total, self.total, elapsed_ms, false)
    }

    /// What is reported of the packing once it is done.
    pub fn done(&self) -> (r: u64)
        ensures
            r == scaled(self.total() as nat, self.total() as nat, self.total() as nat),
            r == self.total(),
    {
        proof {
            law_scaled(self.total as nat, self.total as nat, self.total as nat);
        }
        match zip_progress(self.total, self.total, self.total, 0, true) {
            Some(shown) => shown,
            None => self.total,
        }
    }
}

/// A number for the name of a temporary file: the time in the upper bits, with
/// a running number mixed in.
pub fn next_temp_file_sequence(millis: u64, sequence: u64) -> (r: u64)
    ensures
        r == (millis << 16) ^ sequence,
{
    (millis << 16) ^ sequence
}

/// Two temporary files get different numbers, whenever they are named, as long
/// as their running numbers differ and fit in sixteen bits.
pub proof fn law_temp_numbers_differ(m1: u64, s1: u64, m2: u64, s2: u64)
    requires
        s1 < 0x1_0000,
        s2 < 0x1_0000,
        s1 != s2,
    ensures
        (m1 << 16) ^ s1 != (m2 << 16) ^ s2,
{
    assert((m1 << 16) ^ s1 != (m2 << 16) ^ s2) by (bit_vector)
        requires
            s1 < 0x1_0000,
            s2 < 0x1_0000,
            s1 != s2,
    ;
}

/// The path of the progress of a download.
pub open spec fn progress_path(download_path: Seq<char>) -> Option<Seq<char>> {
    if APP_PREFIX@.is_prefix_of(download_path) {
        let rest = download_path.skip(APP_PREFIX@.len() as int);
        if DOWNLOAD_SUFFIX@.is_suffix_of(rest) {
            Some(
                APP_PREFIX@ + rest.take(rest.len() - DOWNLOAD_SUFFIX@.len()) + PROGRESS_SUFFIX@,
            )
        } else {
            None
        }
    } else {
        None
    }
}

/// The path of the progress of a download.
pub fn remote_progress_path(download_path: &str) -> (r: Option<String>)
    ensures
        text::opt_text(r) == progress_path(download_path@),
{
    match without_prefix(download_path, APP_PREFIX) {
        Some(rest) => match without_suffix(rest.as_str(), DOWNLOAD_SUFFIX) {
            Some(id) => {
                let mut path = APP_PREFIX.to_string();
                push_text(&mut path, id.as_str());
                push_text(&mut path, PROGRESS_SUFFIX);
                Some(path)
            },
            None => None,
        },
        None => None,
    }
}

/// The path of an application's package on the server.
pub open spec fn download_path_of(app_id: Seq<char>) -> Seq<char> {
    APP_PREFIX@ + app_id + DOWNLOAD_SUFFIX@
}

/// The path of an application's package on the server.
pub fn download_path(app_id: &str) -> (r: String)
    ensures
        r@ == download_path_of(app_id@),
{
    let mut path = APP_PREFIX.to_string();
    push_text(&mut path, app_id);
    push_text(&mut path, DOWNLOAD_SUFFIX);
    path
}

/// The progress of the download of an application is asked for under the
/// application's own path.
pub proof fn law_progress_of_download(app_id: Seq<char>)
    ensures
        progress_path(download_path_of(app_id)) == Some(APP_PREFIX@ + app_id + PROGRESS_SUFFIX@),
{
    let p = download_path_of(app_id);
    let n = APP_PREFIX@.len() as int;
    assert(APP_PREFIX@ =~= p.subrange(0, n));
    let rest = p.skip(n);
    assert(rest =~= app_id + DOWNLOAD_SUFFIX@);
    assert(DOWNLOAD_SUFFIX@ =~= rest.subrange(
        rest.len() - DOWNLOAD_SUFFIX@.len(),
        rest.len() as int,
    ));
    assert(rest.take(rest.len() - DOWNLOAD_SUFFIX@.len()) =~= app_id);
}

/// What the name of a temporary package begins with.
pub const TEMP_PREFIX: &'static str = "appmanager-";

/// The name of the file that a download goes to first.
pub fn temp_download_name(app_id: &str, number: u64) -> (r: String)
    ensures
        r@ == "appmanager-download-"@ + app_id@ + "-"@ + numbers::decimal(number as nat)
            + ".part"@,
{
    let mut name = "appmanager-download-".to_string();
    push_text(&mut name, app_id);
    push_text(&mut name, "-");
    let shown = decimal_text(number);
    push_text(&mut name, shown.as_str());
    push_text(&mut name, ".part");
    name
}

/// The name of the file that a package is made in first.
pub fn temp_package_name(app_id: &str, number: u64, file_name: &str) -> (r: String)
    ensures
        r@ == TEMP_PREFIX@ + app_id@ + "-"@ + numbers::decimal(number as nat) + "-"@ + file_name@,
{
    let mut name = TEMP_PREFIX.to_string();
    push_text(&mut name, app_id);
    push_text(&mut name, "-");
    let shown = decimal_text(number);
    push_text(&mut name, shown.as_str());
    push_text(&mut name, "-");
    push_text(&mut name, file_name);
    name
}

/// The speed of a transfer is the bytes since the last sample over the time
/// since then, in bytes per second and rounded down. Without a sample it is zero;
/// where no time has passed, or the transfer began anew, it is the last one.
pub proof fn law_speed(last: TransferSpeedSample, transferred: u64, now_ms: u128)
    ensures
        speed_since(None, transferred, now_ms) == 0,
        transferred < last.transferred || now_ms <= last.timestamp_ms ==> speed_since(
            Some(last),
            transferred,
            now_ms,
        ) == last.speed,
        transferred >= last.transferred && now_ms > last.timestamp_ms && (transferred
            - last.transferred) * 1000 / (now_ms - last.timestamp_ms) <= u64::MAX ==> {
            let bytes = transferred - last.transferred;
            let ms = now_ms - last.timestamp_ms;
            let speed = speed_since(Some(last), transferred, now_ms) as int;
            speed * ms <= bytes * 1000 && bytes * 1000 < (speed + 1) * ms
        },
        transferred >= last.transferred && now_ms > last.timestamp_ms ==> speed_since(
            Some(last),
            transferred,
            now_ms,
        ) == ((transferred - last.transferred) * 1000 / (now_ms - last.timestamp_ms))
            % 0x1_0000_0000_0000_0000,
{
    if transferred >= last.transferred && now_ms > last.timestamp_ms {
        let bytes = transferred - last.transferred;
        let ms = now_ms - last.timestamp_ms;
        let q = bytes * 1000 / ms;
        assert(0 <= q && q * ms <= bytes * 1000 && bytes * 1000 < (q + 1) * ms) by (nonlinear_arith)
            requires
                ms > 0,
                bytes >= 0,
                q == bytes * 1000 / ms,
        ;
    }
}

/// Progress is shown in proportion to the work that is done, rounded down, and
/// never more than the whole.
pub proof fn law_scaled_in_proportion(done: nat, total: nat, display: nat)
    requires
        total > 0,
    ensures
        done <= total ==> {
            let r = scaled(done, total, display);
            r * total <= done * display && done * display < (r + 1) * total
        },
        scaled(done, 0, display) == 0,
        done > total ==> scaled(done, total, display) == display,
{
    law_scaled(done, total, display);
    let q = done * display / total;
    assert(q * total <= done * display && done * display < (q + 1) * total) by (nonlinear_arith)
        requires
            total > 0,
            q == done * display / total,
    ;
    if done <= total {
        assert(q <= display) by (nonlinear_arith)
            requires
                total > 0,
                done <= total,
                q * total <= done * display,
        ;
    }
}

/// Only the path of a download has a path of its progress.
pub proof fn law_progress_path(path: Seq<char>)
    ensures
        progress_path(path) matches Some(p) ==> exists|id: Seq<char>|
            path == #[trigger] ("/api/apps/"@ + id + "/download"@) && p == "/api/apps/"@ + id
                + "/progress"@,
{
    if let Some(p) = progress_path(path) {
        let prefix = "/api/apps/"@;
        let suffix = "/download"@;
        let rest = path.skip(prefix.len() as int);
        let id = rest.take(rest.len() - suffix.len());
        assert(path.subrange(0, prefix.len() as int) =~= prefix);
        assert(rest.subrange(rest.len() - suffix.len(), rest.len() as int) =~= suffix);
        assert(rest =~= id + suffix);
        assert(path =~= path.subrange(0, prefix.len() as int) + rest);
        assert(path =~= prefix + id + suffix);
        assert(p == prefix + id + "/progress"@);
    }
}

/// A transfer is known by its direction and its application.
pub proof fn law_key(direction: Seq<char>, app_id: Seq<char>)
    requires
        !direction.contains('-'),
    ensures
        text::split_at_char(key_of(direction, app_id), '-') == Some((direction, app_id)),
{
    text::law_split_at_char(direction, '-', app_id);
}

} // verus!
