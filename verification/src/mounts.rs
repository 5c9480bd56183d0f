//! The mount table: one entry for each line of `/proc/mounts`.
use crate::error::{ReadFailure, RecordError};
use crate::text::{
    contains, find_char, is_space, is_token, join, lemma_join_chars, lemma_join_push,
    lemma_lines_of_line, lemma_prefix_len_is, lemma_tokens_are_tokens, lemma_tokens_of_join, lines, occurs_in, prefix_len, push_chars,
    same_chars, split_lines, split_whitespace, starts_with, strip_prefix, texts, to_chars,
    to_string, tokens, views,
};
use vstd::prelude::*;
use vstd::std_specs::cmp::PartialEqSpecImpl;

verus! {

/// Where the kernel shows the mount table.
pub const MOUNTS: &'static str = "/proc/mounts";

/// The directory of links from a filesystem's UUID to its device node.
pub const BY_UUID: &'static str = "/dev/disk/by-uuid/";

/// What `get_uuid` answers for a mount without a UUID.
pub const NOT_FOUND: &'static str = "Not Found";

/// One mounted filesystem.
#[derive(Clone, Debug)]
pub struct Mount {
    /// The mounted device, or the name of a pseudo-filesystem.
    pub dev: String,
    /// Where it is mounted.
    pub mnt: String,
    /// The type of the filesystem.
    pub fs_type: String,
    /// The mount options, separated by commas.
    pub attrs: String,
    /// The two trailing fields, kept as they were written.
    pub dummy: Vec<String>,
}

/// A mount entry as plain texts.
pub struct MountView {
    pub dev: Seq<char>,
    pub mnt: Seq<char>,
    pub fs_type: Seq<char>,
    pub attrs: Seq<char>,
    pub dummy: Seq<Seq<char>>,
}

impl View for Mount {
    type V = MountView;

    open spec fn view(&self) -> MountView {
        MountView {
            dev: self.dev@,
            mnt: self.mnt@,
            fs_type: self.fs_type@,
            attrs: self.attrs@,
            dummy: texts(self.dummy@),
        }
    }
}

impl MountView {
    /// The fields in the order of a line of the table.
    pub open spec fn fields(self) -> Seq<Seq<char>> {
        seq![self.dev, self.mnt, self.fs_type, self.attrs] + self.dummy
    }

    /// The line of the table that states this entry, without a line feed.
    pub open spec fn line(self) -> Seq<char> {
        join(self.fields(), ' ')
    }

    /// The first of the mount options.
    pub open spec fn first_option(self) -> Seq<char> {
        self.attrs.take(prefix_len(self.attrs, ',') as int)
    }
}

/// The entry that the fields `t` of a line state.
pub open spec fn entry(t: Seq<Seq<char>>) -> MountView
    recommends
        t.len() >= 6,
{
    MountView { dev: t[0], mnt: t[1], fs_type: t[2], attrs: t[3], dummy: t.subrange(4, 6) }
}

/// Whether `a` and `b` hold the same texts in the same order.
fn same_texts(a: &Vec<String>, b: &Vec<String>) -> (r: bool)
    ensures
        r == (texts(a@) == texts(b@)),
{
    if a.len() != b.len() {
        assert(texts(a@).len() != texts(b@).len());
        return false;
    }
    let mut i: usize = 0;
    while i < a.len()
        invariant
            i <= a.len() == b.len(),
            forall|k: int| 0 <= k < i ==> a@[k]@ == b@[k]@,
        decreases a.len() - i,
    {
        if a[i] != b[i] {
            assert(texts(a@)[i as int] != texts(b@)[i as int]);
            return false;
        }
        i += 1;
    }
    assert(texts(a@) =~= texts(b@));
    true
}

impl PartialEq for Mount {
    /// Two entries are equal where all their fields are.
    fn eq(&self, other: &Mount) -> (r: bool) {
        let r = self.dev == other.dev && self.mnt == other.mnt && self.fs_type == other.fs_type
            && self.attrs == other.attrs && same_texts(&self.dummy, &other.dummy);
        r
    }
}

impl PartialEqSpecImpl for Mount {
    open spec fn obeys_eq_spec() -> bool {
        true
    }

    open spec fn eq_spec(&self, other: &Mount) -> bool {
        self@ == other@
    }
}

/// One entry of the directory `BY_UUID`: a symbolic link whose name is the
/// UUID of a filesystem and whose target is the device that holds it.
#[derive(Clone, Debug)]
pub struct UuidLink {
    /// The name of the link: the UUID.
    pub name: String,
    /// Where the link points, as it is stored: `../../` and the device's name.
    pub target: String,
}

/// A link as two texts.
pub struct UuidLinkView {
    pub name: Seq<char>,
    pub target: Seq<char>,
}

impl View for UuidLink {
    type V = UuidLinkView;

    open spec fn view(&self) -> UuidLinkView {
        UuidLinkView { name: self.name@, target: self.target@ }
    }
}

/// The views of the links `v`.
pub open spec fn link_views(v: Seq<UuidLink>) -> Seq<UuidLinkView> {
    v.map_values(|l: UuidLink| l@)
}

/// Whether a link with the target `target` points at the device `dev`: what
/// follows `../../` in the one is what follows `/dev/` in the other.
pub open spec fn points_at(target: Seq<char>, dev: Seq<char>) -> bool {
    &&& strip_prefix(dev, "/dev/"@) is Some
    &&& strip_prefix(target, "../../"@) == strip_prefix(dev, "/dev/"@)
}

/// The name of the first of `links` that points at `dev`.
pub open spec fn first_link(links: Seq<UuidLinkView>, dev: Seq<char>) -> Option<Seq<char>>
    decreases links.len(),
{
    if links.len() == 0 {
        None
    } else if points_at(links[0].target, dev) {
        Some(links[0].name)
    } else {
        first_link(links.drop_first(), dev)
    }
}

/// The UUID of the device `dev` by the links `links`. Only a device whose
/// name holds `dev` is looked for; with no link that points at it, and for
/// every other name, the answer is `NOT_FOUND`.
pub open spec fn uuid_of(dev: Seq<char>, links: Seq<UuidLinkView>) -> Seq<char> {
    if occurs_in("dev"@, dev) {
        match first_link(links, dev) {
            Some(name) => name,
            None => NOT_FOUND@,
        }
    } else {
        NOT_FOUND@
    }
}

impl Mount {
    /// The UUID of the mounted device from what reading the directory
    /// `BY_UUID` gave: its links, or the failure to read it. A directory that
    /// is not there holds no links; every other failure is passed on as
    /// `IoUnavailable`.
    pub fn uuid_from(&self, read: Result<Vec<UuidLink>, ReadFailure>) -> (r: Result<
        String,
        RecordError,
    >)
        ensures
            match read {
                Ok(links) => r is Ok && r->Ok_0@ == uuid_of(self.dev@, link_views(links@)),
                Err(ReadFailure::NotFound) => r is Ok && r->Ok_0@ == NOT_FOUND@,
                Err(ReadFailure::Unavailable) => r == Err::<String, RecordError>(
                    RecordError::IoUnavailable,
                ),
            },
    {
        match read {
            Ok(links) => Ok(self.get_uuid(&links)),
            Err(ReadFailure::NotFound) => Ok(NOT_FOUND.to_owned()),
            Err(ReadFailure::Unavailable) => Err(RecordError::IoUnavailable),
        }
    }

    /// The line of the table that states this entry, without a line feed:
    /// the fields with one space between each two.
    pub fn to_line(&self) -> (r: String)
        ensures
            r@ == self@.line(),
    {
        let mut r = self.dev.clone();
        let ghost head = seq![self.dev@];
        proof {
            lemma_join_push(Seq::empty(), ' ', self.dev@);
            assert(head == Seq::<Seq<char>>::empty().push(self.dev@));
            lemma_join_push(head, ' ', self.mnt@);
            lemma_join_push(head.push(self.mnt@), ' ', self.fs_type@);
            lemma_join_push(head.push(self.mnt@).push(self.fs_type@), ' ', self.attrs@);
        }
        r.push(' ');
        let mnt = to_chars(self.mnt.as_str());
        push_chars(&mut r, mnt.as_slice());
        r.push(' ');
        let fs_type = to_chars(self.fs_type.as_str());
        push_chars(&mut r, fs_type.as_slice());
        r.push(' ');
        let attrs = to_chars(self.attrs.as_str());
        push_chars(&mut r, attrs.as_slice());
        let ghost first = seq![self.dev@, self.mnt@, self.fs_type@, self.attrs@];
        assert(first == head.push(self.mnt@).push(self.fs_type@).push(self.attrs@));
        let ghost rest = texts(self.dummy@);
        let mut i: usize = 0;
        assert(first + rest.take(0) == first);
        while i < self.dummy.len()
            invariant
                i <= self.dummy.len(),
                first.len() == 4,
                rest == texts(self.dummy@),
                r@ == join(first + rest.take(i as int), ' '),
            decreases self.dummy.len() - i,
        {
            proof {
                lemma_join_push(first + rest.take(i as int), ' ', rest[i as int]);
                assert((first + rest.take(i as int)).push(rest[i as int]) == first + rest.take(
                    i + 1,
                ));
            }
            r.push(' ');
            let field = to_chars(self.dummy[i].as_str());
            push_chars(&mut r, field.as_slice());
            i += 1;
        }
        assert(rest.take(i as int) == rest);
        r
    }

    /// Whether `get_uuid` has any use for the links: whether the device's
    /// name holds `dev`.
    pub fn is_device(&self) -> (r: bool)
        ensures
            r == occurs_in("dev"@, self.dev@),
    {
        let dev = to_chars(self.dev.as_str());
        let needle = to_chars("dev");
        contains(dev.as_slice(), needle.as_slice())
    }

    /// The UUID of the mounted device: the name of the first of `links`
    /// that points at it, or `NOT_FOUND`.
    pub fn get_uuid(&self, links: &Vec<UuidLink>) -> (r: String)
        ensures
            r@ == uuid_of(self.dev@, link_views(links@)),
    {
        if !self.is_device() {
            return NOT_FOUND.to_owned();
        }
        let dev = to_chars(self.dev.as_str());
        let dev_prefix = to_chars("/dev/");
        let up = to_chars("../../");
        if starts_with(dev.as_slice(), dev_prefix.as_slice()) {
            let node = vstd::slice::slice_subrange(dev.as_slice(), dev_prefix.len(), dev.len());
            let ghost all = link_views(links@);
            let mut i: usize = 0;
            assert(all.skip(0) == all);
            while i < links.len()
                invariant
                    i <= links.len(),
                    all == link_views(links@),
                    dev@ == self.dev@,
                    occurs_in("dev"@, self.dev@),
                    up@ == "../../"@,
                    strip_prefix(dev@, "/dev/"@) == Some(node@),
                    first_link(all, dev@) == first_link(all.skip(i as int), dev@),
                decreases links.len() - i,
            {
                let target = to_chars(links[i].target.as_str());
                assert(all.skip(i as int)[0] == links@[i as int]@);
                assert(all.skip(i as int).drop_first() == all.skip(i + 1));
                if starts_with(target.as_slice(), up.as_slice()) {
                    let rest = vstd::slice::slice_subrange(
                        target.as_slice(),
                        up.len(),
                        target.len(),
                    );
                    if same_chars(rest, node) {
                        return links[i].name.clone();
                    }
                }
                i += 1;
            }
            assert(all.skip(i as int).len() == 0);
        } else {
            proof {
                lemma_first_link_none(link_views(links@), dev@);
            }
        }
        NOT_FOUND.to_owned()
    }

    /// Whether the filesystem is mounted read-only: whether the first of its
    /// options is `ro`. Options after the first do not count.
    pub fn is_read_only(&self) -> (r: bool)
        ensures
            r == (self@.first_option() == "ro"@),
    {
        let chars = to_chars(self.attrs.as_str());
        let end = find_char(chars.as_slice(), 0, ',');
        let r = end == 2 && chars[0] == 'r' && chars[1] == 'o';
        proof {
            reveal_strlit("ro");
            let first = chars@.take(end as int);
            assert(chars@.skip(0) == chars@);
            assert(first.len() == end);
            if r {
                assert(first =~= "ro"@);
            } else if end == 2 {
                assert(first[0] == chars@[0]);
                assert(first[1] == chars@[1]);
            }
        }
        r
    }
}

/// The mount table.
#[derive(Clone, Debug)]
pub struct Mounts {
    /// The entries, in the order of the table's lines.
    pub mounts: Vec<Mount>,
}

/// The views of the entries `v`.
pub open spec fn mount_views(v: Seq<Mount>) -> Seq<MountView> {
    v.map_values(|m: Mount| m@)
}

impl View for Mounts {
    type V = Seq<MountView>;

    open spec fn view(&self) -> Seq<MountView> {
        mount_views(self.mounts@)
    }
}

/// Whether a line of the table can be read: it is empty, or has the six
/// fields of an entry.
pub open spec fn line_ok(l: Seq<char>) -> bool {
    l.len() == 0 || tokens(l).len() >= 6
}

/// The entries that the lines `ls` state: one for each line that is not
/// empty.
pub open spec fn entries(ls: Seq<Seq<char>>) -> Seq<MountView> {
    ls.filter(|l: Seq<char>| l.len() > 0).map_values(|l: Seq<char>| entry(tokens(l)))
}

/// What a mount table with the text `text` states: its entries, or
/// `MalformedRecord` where one of its lines has too few fields.
pub open spec fn table(text: Seq<char>) -> Result<Seq<MountView>, RecordError> {
    if forall|k: int| 0 <= k < lines(text).len() ==> line_ok(#[trigger] lines(text)[k]) {
        Ok(entries(lines(text)))
    } else {
        Err(RecordError::MalformedRecord)
    }
}

/// One more line adds one entry, or none if it is empty.
pub proof fn lemma_entries_push(ls: Seq<Seq<char>>, l: Seq<char>)
    ensures
        entries(ls.push(l)) == if l.len() > 0 {
            entries(ls).push(entry(tokens(l)))
        } else {
            entries(ls)
        },
{
    reveal(Seq::filter);
    assert(ls.push(l).drop_last() == ls);
}

impl Mounts {
    /// The mount table from what reading `MOUNTS` gave: the text, or the
    /// failure to read it, which is passed on as `IoUnavailable`.
    pub fn new(read: Result<String, ReadFailure>) -> (r: Result<Mounts, RecordError>)
        ensures
            match read {
                Ok(s) => match r {
                    Ok(m) => table(s@) == Ok::<Seq<MountView>, RecordError>(m@),
                    Err(e) => table(s@) == Err::<Seq<MountView>, RecordError>(e),
                },
                Err(_) => r == Err::<Mounts, RecordError>(RecordError::IoUnavailable),
            },
    {
        match read {
            Ok(s) => Mounts::parse(s),
            Err(_) => Err(RecordError::IoUnavailable),
        }
    }

    /// Reads the text of a mount table. Each line that is not empty must
    /// hold six fields or more; the first six make its entry.
    pub fn parse(s: String) -> (r: Result<Mounts, RecordError>)
        ensures
            match r {
                Ok(m) => table(s@) == Ok::<Seq<MountView>, RecordError>(m@),
                Err(e) => table(s@) == Err::<Seq<MountView>, RecordError>(e),
            },
    {
        let chars = to_chars(s.as_str());
        let ls = split_lines(chars.as_slice());
        let ghost all = lines(s@);
        let mut mounts: Vec<Mount> = Vec::new();
        let mut i: usize = 0;
        assert(all.take(0) == Seq::<Seq<char>>::empty());
        assert(entries(Seq::<Seq<char>>::empty()) =~= Seq::<MountView>::empty()) by {
            reveal(Seq::filter);
        }
        while i < ls.len()
            invariant
                i <= ls.len(),
                all == lines(s@),
                views(ls@) == all,
                forall|k: int| 0 <= k < i ==> line_ok(#[trigger] all[k]),
                mount_views(mounts@) == entries(all.take(i as int)),
            decreases ls.len() - i,
        {
            let line = &ls[i];
            assert(all[i as int] == line@);
            assert(all.take(i + 1) == all.take(i as int).push(line@));
            proof {
                lemma_entries_push(all.take(i as int), line@);
            }
            if line.len() > 0 {
                let toks = split_whitespace(line.as_slice());
                if toks.len() < 6 {
                    assert(!line_ok(all[i as int]));
                    return Err(RecordError::MalformedRecord);
                }
                let ghost t = tokens(line@);
                assert(forall|k: int| 0 <= k < 6 ==> t[k] == (#[trigger] toks@[k])@);
                let mut dummy: Vec<String> = Vec::new();
                dummy.push(to_string(toks[4].as_slice()));
                dummy.push(to_string(toks[5].as_slice()));
                let m = Mount {
                    dev: to_string(toks[0].as_slice()),
                    mnt: to_string(toks[1].as_slice()),
                    fs_type: to_string(toks[2].as_slice()),
                    attrs: to_string(toks[3].as_slice()),
                    dummy,
                };
                assert(m@.dummy =~= t.subrange(4, 6));
                assert(m@ == entry(t));
                let ghost before = mount_views(mounts@);
                mounts.push(m);
                assert(mount_views(mounts@) == before.push(m@));
            }
            i += 1;
        }
        assert(all.take(i as int) == all);
        Ok(Mounts { mounts })
    }
}

/// A line with six fields reads back as it was written: the table that holds
/// nothing but the line of an entry states that entry, and no other.
pub proof fn lemma_line_round_trip(m: MountView)
    requires
        m.dummy.len() == 2,
        forall|k: int| 0 <= k < m.fields().len() ==> is_token(#[trigger] m.fields()[k]),
    ensures
        table(m.line()) == Ok::<Seq<MountView>, RecordError>(seq![m]),
{
    let line = m.line();
    lemma_tokens_of_join(m.fields(), ' ');
    lemma_join_chars(m.fields(), ' ');
    assert forall|k: int| 0 <= k < line.len() implies #[trigger] line[k] != '\n' by {
        let c = line[k];
        assert(c == ' ' || !is_space(c));
    }
    lemma_lines_of_line(line);
    assert(entry(m.fields()) == m) by {
        assert(m.fields().subrange(4, 6) == m.dummy);
    }
    lemma_entries_push(Seq::empty(), line);
    assert(Seq::<Seq<char>>::empty().push(line) == seq![line]);
    assert(entries(Seq::<Seq<char>>::empty()) =~= Seq::<MountView>::empty()) by {
        reveal(Seq::filter);
    }
    assert(entries(seq![line]) == seq![m]);
}

/// A line of six fields with one space between each two is written back as
/// it was read: it states one entry, and the line of that entry is the line.
pub proof fn lemma_line_written_back(line: Seq<char>)
    requires
        tokens(line).len() == 6,
        line == join(tokens(line), ' '),
    ensures
        table(line) == Ok::<Seq<MountView>, RecordError>(seq![entry(tokens(line))]),
        entry(tokens(line)).line() == line,
{
    let m = entry(tokens(line));
    lemma_tokens_are_tokens(line);
    assert(m.fields() == tokens(line));
    lemma_line_round_trip(m);
}

/// Only the first option decides: it is what stands before the first comma,
/// whatever follows it.
pub proof fn lemma_first_option(first: Seq<char>, rest: Seq<char>)
    requires
        forall|k: int| 0 <= k < first.len() ==> #[trigger] first[k] != ',',
    ensures
        prefix_len(first, ',') == first.len(),
        prefix_len(first + seq![','] + rest, ',') == first.len(),
        (first + seq![','] + rest).take(first.len() as int) == first,
{
    let whole = first + seq![','] + rest;
    lemma_prefix_len_is(first, ',', first.len() as int);
    assert forall|k: int| 0 <= k < first.len() implies #[trigger] whole[k] != ',' by {
        assert(whole[k] == first[k]);
    }
    lemma_prefix_len_is(whole, ',', first.len() as int);
}

/// No link points at a device whose name does not begin with `/dev/`.
pub proof fn lemma_first_link_none(links: Seq<UuidLinkView>, dev: Seq<char>)
    requires
        strip_prefix(dev, "/dev/"@) is None,
    ensures
        first_link(links, dev) is None,
    decreases links.len(),
{
    if links.len() > 0 {
        lemma_first_link_none(links.drop_first(), dev);
    }
}

/// `first_link` names the first link that points at the device, and is
/// `None` only where no link does.
pub proof fn lemma_first_link(links: Seq<UuidLinkView>, dev: Seq<char>)
    ensures
        match first_link(links, dev) {
            Some(name) => exists|i: int|
                {
                    &&& 0 <= i < links.len()
                    &&& points_at(#[trigger] links[i].target, dev)
                    &&& links[i].name == name
                    &&& forall|j: int| 0 <= j < i ==> !points_at(#[trigger] links[j].target, dev)
                },
            None => forall|i: int|
                0 <= i < links.len() ==> !points_at(#[trigger] links[i].target, dev),
        },
    decreases links.len(),
{
    if links.len() == 0 {
    } else if points_at(links[0].target, dev) {
        assert(forall|j: int| 0 <= j < 0 ==> !points_at(#[trigger] links[j].target, dev));
    } else {
        let rest = links.drop_first();
        lemma_first_link(rest, dev);
        match first_link(rest, dev) {
            Some(name) => {
                let i = choose|i: int|
                    {
                        &&& 0 <= i < rest.len()
                        &&& points_at(#[trigger] rest[i].target, dev)
                        &&& rest[i].name == name
                        &&& forall|j: int|
                            0 <= j < i ==> !points_at(#[trigger] rest[j].target, dev)
                    };
                assert(links[i + 1] == rest[i]);
                assert forall|j: int| 0 <= j < i + 1 implies !points_at(
                    #[trigger] links[j].target,
                    dev,
                ) by {
                    if j > 0 {
                        assert(links[j] == rest[j - 1]);
                    }
                }
                assert(points_at(links[i + 1].target, dev));
            },
            None => {
                assert forall|i: int| 0 <= i < links.len() implies !points_at(
                    #[trigger] links[i].target,
                    dev,
                ) by {
                    if i > 0 {
                        assert(links[i] == rest[i - 1]);
                    }
                }
            },
        }
    }
}

/// A mount whose device name does not hold `dev` has no UUID, whatever the
/// links are.
pub proof fn lemma_no_device_no_uuid(dev: Seq<char>, links: Seq<UuidLinkView>)
    requires
        !occurs_in("dev"@, dev),
    ensures
        uuid_of(dev, links) == NOT_FOUND@,
{
}

} // verus!
