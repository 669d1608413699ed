//! Reports of the self tests: text, and a count of passed and failed checks.
use vstd::prelude::*;

use crate::bytes;
use crate::serial;

verus! {

/// A report that is being written.
pub struct Report {
    pub text: Vec<u8>,
    pub passed: u32,
    pub failed: u32,
}

/// What a report says.
#[verifier::ext_equal]
pub struct ReportView {
    pub text: Seq<u8>,
    pub passed: int,
    pub failed: int,
}

impl View for Report {
    type V = ReportView;

    open spec fn view(&self) -> ReportView {
        ReportView { text: self.text@, passed: self.passed as int, failed: self.failed as int }
    }
}

pub open spec fn put(v: ReportView, s: Seq<char>) -> ReportView {
    ReportView { text: v.text + serial::text(s), ..v }
}

pub open spec fn put_bytes(v: ReportView, raw: Seq<u8>) -> ReportView {
    ReportView { text: v.text + raw, ..v }
}

pub open spec fn put_hex(v: ReportView, value: int) -> ReportView {
    ReportView { text: v.text + serial::hex_text(value as u64), ..v }
}

pub open spec fn put_end(v: ReportView) -> ReportView {
    ReportView { text: v.text + serial::line_end(), ..v }
}

pub open spec fn put_line(v: ReportView, s: Seq<char>) -> ReportView {
    put_end(put(v, s))
}

/// A check that passed: a line with its name, and one more in the count.
pub open spec fn passed(v: ReportView, name: Seq<char>) -> ReportView {
    let t = put_line(put(v, "[T]   PASS: "@), name);
    ReportView { passed: v.passed + 1, ..t }
}

/// A check that failed: a line with its name, and one more in the count.
pub open spec fn failed(v: ReportView, name: Seq<char>) -> ReportView {
    let t = put_line(put(v, "[T]   FAIL: "@), name);
    ReportView { failed: v.failed + 1, ..t }
}

/// Checks that count as passed, without a line.
pub open spec fn passed_silently(v: ReportView, n: int) -> ReportView {
    ReportView { passed: v.passed + n, ..v }
}

impl Report {
    /// The number of checks so far.
    pub open spec fn checks(&self) -> int {
        self.passed + self.failed
    }

    /// An empty report.
    pub fn new() -> (r: Report)
        ensures
            r@ == (ReportView { text: Seq::empty(), passed: 0, failed: 0 }),
            r.checks() == 0,
    {
        Report { text: Vec::new(), passed: 0, failed: 0 }
    }

    pub fn put(&mut self, s: &str)
        ensures
            final(self)@ == put(old(self)@, s@),
            final(self).checks() == old(self).checks(),
    {
        serial::write_str(&mut self.text, s);
    }

    pub fn put_bytes(&mut self, raw: &[u8])
        ensures
            final(self)@ == put_bytes(old(self)@, raw@),
            final(self).checks() == old(self).checks(),
    {
        bytes::append(&mut self.text, raw);
    }

    pub fn put_hex(&mut self, value: u64)
        ensures
            final(self)@ == put_hex(old(self)@, value as int),
            final(self).checks() == old(self).checks(),
    {
        serial::write_hex(&mut self.text, value);
    }

    pub fn put_end(&mut self)
        ensures
            final(self)@ == put_end(old(self)@),
            final(self).checks() == old(self).checks(),
    {
        serial::write_nl(&mut self.text);
    }

    pub fn put_line(&mut self, s: &str)
        ensures
            final(self)@ == put_line(old(self)@, s@),
            final(self).checks() == old(self).checks(),
    {
        self.put(s);
        self.put_end();
    }

    pub fn pass(&mut self, name: &str)
        requires
            old(self).checks() < u32::MAX,
        ensures
            final(self)@ == passed(old(self)@, name@),
            final(self).checks() == old(self).checks() + 1,
    {
        self.put("[T]   PASS: ");
        self.put_line(name);
        self.passed = self.passed + 1;
    }

    pub fn fail(&mut self, name: &str)
        requires
            old(self).checks() < u32::MAX,
        ensures
            final(self)@ == failed(old(self)@, name@),
            final(self).checks() == old(self).checks() + 1,
    {
        self.put("[T]   FAIL: ");
        self.put_line(name);
        self.failed = self.failed + 1;
    }

    pub fn pass_silently(&mut self, n: u32)
        requires
            old(self).checks() + n <= u32::MAX,
        ensures
            final(self)@ == passed_silently(old(self)@, n as int),
            final(self).checks() == old(self).checks() + n,
    {
        self.passed = self.passed + n;
    }
}

/// The line with the counts.
pub open spec fn with_counts(v: ReportView, title: Seq<char>) -> ReportView {
    let t1 = put_hex(put(v, title), v.passed);
    let t2 = put_hex(put(t1, " passed, "@), v.failed);
    put_end(put(t2, " failed"@))
}

pub fn counts(r: &mut Report, title: &str)
    ensures
        final(r)@ == with_counts(old(r)@, title@),
        final(r).checks() == old(r).checks(),
{
    let passed: u32 = r.passed;
    let failed: u32 = r.failed;
    r.put(title);
    r.put_hex(passed as u64);
    r.put(" passed, ");
    r.put_hex(failed as u64);
    r.put(" failed");
    r.put_end();
}

pub open spec fn rule() -> Seq<char> {
    "[T] =================================================="@
}

/// The title of a series of checks, between two rules.
pub open spec fn with_title(v: ReportView, title: Seq<char>) -> ReportView {
    put_line(put_line(put_line(v, rule()), title), rule())
}

pub fn title(r: &mut Report, title: &str)
    ensures
        final(r)@ == with_title(old(r)@, title@),
        final(r).checks() == old(r).checks(),
{
    r.put_line("[T] ==================================================");
    r.put_line(title);
    r.put_line("[T] ==================================================");
}

/// The end of a series of checks: the counts, and whether anything failed.
pub open spec fn with_summary(
    v: ReportView,
    counts: Seq<char>,
    good: Seq<char>,
    bad: Seq<char>,
) -> ReportView {
    let t = with_counts(put_line(v, rule()), counts);
    put_line(
        put_line(
            t,
            if v.failed == 0 {
                good
            } else {
                bad
            },
        ),
        rule(),
    )
}

pub fn summary(r: &mut Report, title: &str, good: &str, bad: &str)
    ensures
        final(r)@ == with_summary(old(r)@, title@, good@, bad@),
        final(r).checks() == old(r).checks(),
{
    r.put_line("[T] ==================================================");
    counts(r, title);
    if r.failed == 0 {
        r.put_line(good);
    } else {
        r.put_line(bad);
    }
    r.put_line("[T] ==================================================");
}

/// Whether data starts like an ELF file.
pub open spec fn elf_magic(data: Seq<u8>) -> bool {
    data.len() >= 4 && data[0] == 0x7F && data[1] == 0x45 && data[2] == 0x4C && data[3] == 0x46
}

pub fn is_elf(data: &[u8]) -> (r: bool)
    ensures
        r == elf_magic(data@),
{
    data.len() >= 4 && data[0] == 0x7F && data[1] == 0x45 && data[2] == 0x4C && data[3] == 0x46
}

/// Whether data starts like a Windows executable.
pub open spec fn mz_magic(data: Seq<u8>) -> bool {
    data.len() >= 2 && data[0] == 0x4D && data[1] == 0x5A
}

pub fn is_mz(data: &[u8]) -> (r: bool)
    ensures
        r == mz_magic(data@),
{
    data.len() >= 2 && data[0] == 0x4D && data[1] == 0x5A
}

/// Whether two pieces of data are the same.
pub fn same(a: &[u8], b: &[u8]) -> (r: bool)
    ensures
        r == (a@ == b@),
{
    if a.len() != b.len() {
        return false;
    }
    let mut i: usize = 0;
    while i < a.len()
        invariant
            i <= a@.len(),
            a@.len() == b@.len(),
            forall|k: int| 0 <= k < i ==> #[trigger] a@[k] == b@[k],
        decreases a@.len() - i,
    {
        if a[i] != b[i] {
            return false;
        }
        i = i + 1;
    }
    assert(a@ =~= b@);
    true
}

/// Whether data starts with other data.
pub open spec fn prefixed(data: Seq<u8>, start: Seq<u8>) -> bool {
    start.len() <= data.len() && start == data.take(start.len() as int)
}

pub fn starts_with(data: &[u8], start: &[u8]) -> (r: bool)
    ensures
        r == prefixed(data@, start@),
{
    if start.len() > data.len() {
        return false;
    }
    assert(data@.subrange(0, start@.len() as int) =~= data@.take(start@.len() as int));
    same(start, &data[0..start.len()])
}

/// Whether data is a text.
pub open spec fn is_name(data: Seq<u8>, name: Seq<char>) -> bool {
    data == serial::text(name)
}

pub fn equals(data: &[u8], name: &str) -> (r: bool)
    ensures
        r == is_name(data@, name@),
{
    same(data, name.as_bytes())
}

/// The names in a listing.
pub open spec fn names(listing: Seq<Vec<u8>>) -> Seq<Seq<u8>> {
    Seq::new(listing.len(), |i: int| listing[i]@)
}

/// Whether two listings are the same.
pub fn same_names(a: &Vec<Vec<u8>>, b: &Vec<Vec<u8>>) -> (r: bool)
    ensures
        r == (names(a@) == names(b@)),
{
    if a.len() != b.len() {
        assert(names(a@).len() != names(b@).len());
        return false;
    }
    let mut i: usize = 0;
    while i < a.len()
        invariant
            i <= a@.len(),
            a@.len() == b@.len(),
            forall|k: int| 0 <= k < i ==> (#[trigger] a@[k])@ == b@[k]@,
        decreases a@.len() - i,
    {
        if !same(&a[i], &b[i]) {
            assert(names(a@)[i as int] != names(b@)[i as int]);
            return false;
        }
        i = i + 1;
    }
    assert(names(a@) =~= names(b@));
    true
}

/// Whether a listing holds a name.
pub open spec fn named(listing: Seq<Vec<u8>>, name: Seq<char>) -> bool {
    exists|i: int| 0 <= i < listing.len() && (#[trigger] listing[i])@ == serial::text(name)
}

pub fn has_name(listing: &Vec<Vec<u8>>, name: &str) -> (r: bool)
    ensures
        r == named(listing@, name@),
{
    let wanted: &[u8] = name.as_bytes();
    assert(wanted@ == serial::text(name@));
    let mut i: usize = 0;
    while i < listing.len()
        invariant
            i <= listing@.len(),
            wanted@ == serial::text(name@),
            forall|k: int| 0 <= k < i ==> (#[trigger] listing@[k])@ != serial::text(name@),
        decreases listing@.len() - i,
    {
        if same(&listing[i], wanted) {
            assert(listing@[i as int]@ == serial::text(name@));
            return true;
        }
        i = i + 1;
    }
    false
}

/// Whether a text stands at `at`.
pub open spec fn stands_at(data: Seq<u8>, raw: Seq<u8>, at: int) -> bool {
    &&& 0 <= at
    &&& at + raw.len() <= data.len()
    &&& data.subrange(at, at + raw.len()) == raw
}

/// Whether data holds a text.
pub open spec fn holds(data: Seq<u8>, s: Seq<char>) -> bool {
    exists|at: int| #[trigger] stands_at(data, serial::text(s), at)
}

pub fn has_text(data: &[u8], s: &str) -> (r: bool)
    ensures
        r == holds(data@, s@),
{
    let raw: &[u8] = s.as_bytes();
    assert(raw@ == serial::text(s@));
    if raw.len() > data.len() {
        return false;
    }
    if raw.len() == 0 {
        assert(data@.subrange(0, 0) =~= raw@);
        assert(stands_at(data@, raw@, 0));
        return true;
    }
    let mut at: usize = 0;
    while at <= data.len() - raw.len()
        invariant
            raw@ == serial::text(s@),
            1 <= raw@.len() <= data@.len(),
            at <= data@.len() - raw@.len() + 1,
            forall|k: int| 0 <= k < at ==> !#[trigger] stands_at(data@, raw@, k),
        decreases data@.len() + 1 - at,
    {
        assert(at + raw@.len() <= data.len());
        if same(&data[at..at + raw.len()], raw) {
            assert(stands_at(data@, raw@, at as int));
            return true;
        }
        at = at + 1;
    }
    assert forall|k: int| !#[trigger] stands_at(data@, serial::text(s@), k) by {
        if 0 <= k && k + raw@.len() <= data@.len() {
            assert(!stands_at(data@, raw@, k));
        }
    }
    false
}

} // verus!
