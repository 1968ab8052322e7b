//! What an update archive may put on disk.
use vstd::prelude::*;

use crate::bytes::{lossy_text, same_bytes};
use crate::error::{AppCommandError, AppErrorCode, ErrorView};

verus! {

/// The largest total size of the files in an update archive, in bytes.
pub const MAX_EXTRACTED_BYTES: u64 = 1536 * 1024 * 1024;

// ---------------------------------------------------------------------------
// Paths inside an archive
// ---------------------------------------------------------------------------

/// The pieces of a path between its slashes.
pub open spec fn pieces(path: Seq<u8>) -> Seq<Seq<u8>>
    decreases path.len(),
{
    if path.len() == 0 {
        seq![Seq::empty()]
    } else {
        let before = pieces(path.drop_last());
        if path.last() == 47 {
            before.push(Seq::empty())
        } else {
            before.drop_last().push(before.last().push(path.last()))
        }
    }
}

/// The piece is `..`, which leads to the parent.
pub open spec fn is_parent(piece: Seq<u8>) -> bool {
    piece == seq![46u8, 46u8]
}

/// The piece names something: it is neither empty nor `.`.
pub open spec fn is_name(piece: Seq<u8>) -> bool {
    piece.len() > 0 && piece != seq![46u8]
}

/// A piece leads to the parent.
pub open spec fn climbs(pieces: Seq<Seq<u8>>) -> bool {
    exists|i: int| 0 <= i < pieces.len() && is_parent(#[trigger] pieces[i])
}

/// The pieces that name something, in order.
pub open spec fn names(pieces: Seq<Seq<u8>>) -> Seq<Seq<u8>>
    decreases pieces.len(),
{
    if pieces.len() == 0 {
        Seq::empty()
    } else if is_name(pieces.last()) {
        names(pieces.drop_last()).push(pieces.last())
    } else {
        names(pieces.drop_last())
    }
}

/// The pieces with a slash between any two neighbours.
pub open spec fn joined(pieces: Seq<Seq<u8>>) -> Seq<u8>
    decreases pieces.len(),
{
    if pieces.len() == 0 {
        Seq::empty()
    } else if pieces.len() == 1 {
        pieces[0]
    } else {
        joined(pieces.drop_last()) + seq![47u8] + pieces.last()
    }
}

/// The path below the target directory that an entry called `path` is put at; `None`
/// for a path that starts at the root or leads to a parent.
pub open spec fn entry_path(path: Seq<u8>) -> Option<Seq<u8>> {
    if (path.len() > 0 && path[0] == 47) || climbs(pieces(path)) {
        None
    } else {
        Some(joined(names(pieces(path))))
    }
}

/// The error for an entry whose path is not safe.
pub open spec fn unsafe_path(path: Seq<u8>) -> ErrorView {
    ErrorView::plain(
        AppErrorCode::InvalidInput,
        "Update archive contains an unsafe path entry: "@ + crate::bytes::lossy_utf8(path),
    )
}

spec fn views(list: Seq<Vec<u8>>) -> Seq<Seq<u8>> {
    list.map_values(|v: Vec<u8>| v@)
}

fn split_path(path: &[u8]) -> (r: Vec<Vec<u8>>)
    ensures
        views(r@) == pieces(path@),
{
    let mut done: Vec<Vec<u8>> = Vec::new();
    let mut current: Vec<u8> = Vec::new();
    let mut i: usize = 0;
    assert(path@.take(0) =~= Seq::<u8>::empty());
    assert(views(done@).push(current@) =~= pieces(path@.take(0)));
    while i < path.len()
        invariant
            i <= path@.len(),
            views(done@).push(current@) == pieces(path@.take(i as int)),
        decreases path.len() - i,
    {
        let b: u8 = path[i];
        let ghost before = views(done@).push(current@);
        proof {
            assert(path@.take(i + 1).drop_last() =~= path@.take(i as int));
            assert(path@.take(i + 1).last() == b);
            assert(before.drop_last() =~= views(done@));
        }
        if b == 47 {
            let ghost piece = current@;
            done.push(current);
            current = Vec::new();
            assert(views(done@) =~= before);
            assert(views(done@).push(current@) =~= pieces(path@.take(i + 1)));
        } else {
            current.push(b);
            assert(views(done@).push(current@) =~= pieces(path@.take(i + 1)));
        }
        i = i + 1;
    }
    let ghost all = views(done@).push(current@);
    done.push(current);
    assert(views(done@) =~= all);
    assert(path@.take(i as int) =~= path@);
    done
}

fn parent_piece(piece: &[u8]) -> (r: bool)
    ensures
        r == is_parent(piece@),
{
    let r: bool = piece.len() == 2 && piece[0] == 46 && piece[1] == 46;
    assert(r == is_parent(piece@)) by {
        if piece@.len() == 2 && piece@[0] == 46 && piece@[1] == 46 {
            assert(piece@ =~= seq![46u8, 46u8]);
        }
    }
    r
}

fn name_piece(piece: &[u8]) -> (r: bool)
    ensures
        r == is_name(piece@),
{
    let r: bool = piece.len() > 0 && !(piece.len() == 1 && piece[0] == 46);
    assert(r == is_name(piece@)) by {
        if piece@.len() == 1 && piece@[0] == 46 {
            assert(piece@ =~= seq![46u8]);
        }
    }
    r
}

fn append_bytes(out: &mut Vec<u8>, piece: &[u8])
    ensures
        final(out)@ == old(out)@ + piece@,
{
    let ghost start = out@;
    let mut i: usize = 0;
    assert(start + piece@.take(0) =~= start);
    while i < piece.len()
        invariant
            i <= piece@.len(),
            out@ == start + piece@.take(i as int),
        decreases piece.len() - i,
    {
        out.push(piece[i]);
        i = i + 1;
        assert(out@ =~= start + piece@.take(i as int));
    }
    assert(piece@.take(i as int) =~= piece@);
}

fn text_with_path(head: &str, path: &[u8]) -> (r: String)
    ensures
        r@ == head@ + crate::bytes::lossy_utf8(path@),
{
    let mut out: String = head.to_owned();
    out.append(lossy_text(path).as_str());
    out
}

/// The path below the target directory for an entry of an archive.
pub fn sanitize_entry_path(path: &[u8]) -> (r: Result<Vec<u8>, AppCommandError>)
    ensures
        match r {
            Ok(p) => entry_path(path@) == Some(p@),
            Err(e) => entry_path(path@) is None && e@ == unsafe_path(path@),
        },
{
    let parts: Vec<Vec<u8>> = split_path(path);
    let ghost all = pieces(path@);
    let mut safe: bool = !(path.len() > 0 && path[0] == 47);
    let mut out: Vec<u8> = Vec::new();
    let mut first: bool = true;
    let mut i: usize = 0;
    assert(all.take(0) =~= Seq::<Seq<u8>>::empty());
    while i < parts.len()
        invariant
            i <= parts@.len(),
            all == pieces(path@),
            all == views(parts@),
            safe == (!(path@.len() > 0 && path@[0] == 47) && !climbs(all.take(i as int))),
            out@ == joined(names(all.take(i as int))),
            first == (names(all.take(i as int)).len() == 0),
        decreases parts.len() - i,
    {
        let ghost before = all.take(i as int);
        let ghost after = all.take(i + 1);
        proof {
            assert(after.drop_last() =~= before);
            assert(after.last() == parts@[i as int]@);
            assert(climbs(after) == (climbs(before) || is_parent(after.last()))) by {
                if climbs(before) {
                    let k = choose|k: int| 0 <= k < before.len() && is_parent(#[trigger] before[k]);
                    assert(after[k] == before[k]);
                }
                if is_parent(after.last()) {
                    assert(is_parent(after[i as int]));
                }
                if climbs(after) {
                    let k = choose|k: int| 0 <= k < after.len() && is_parent(#[trigger] after[k]);
                    if k < i {
                        assert(before[k] == after[k]);
                    }
                }
            }
        }
        if parent_piece(parts[i].as_slice()) {
            safe = false;
        }
        if name_piece(parts[i].as_slice()) {
            proof {
                assert(names(after).drop_last() =~= names(before));
            }
            if !first {
                out.push(47);
            }
            append_bytes(&mut out, parts[i].as_slice());
            first = false;
            assert(out@ =~= joined(names(after)));
        }
        i = i + 1;
    }
    assert(all.take(i as int) =~= all);
    if safe {
        Ok(out)
    } else {
        Err(
            AppCommandError::invalid_input(
                text_with_path("Update archive contains an unsafe path entry: ", path),
            ),
        )
    }
}

/// No byte of the piece is a slash.
pub open spec fn slash_free(piece: Seq<u8>) -> bool {
    forall|i: int| 0 <= i < piece.len() ==> #[trigger] piece[i] != 47
}

proof fn lemma_pieces_slash_free(path: Seq<u8>)
    ensures
        pieces(path).len() > 0,
        forall|i: int| 0 <= i < pieces(path).len() ==> slash_free(#[trigger] pieces(path)[i]),
    decreases path.len(),
{
    if path.len() > 0 {
        lemma_pieces_slash_free(path.drop_last());
        let before = pieces(path.drop_last());
        let all = pieces(path);
        assert forall|i: int| 0 <= i < all.len() implies slash_free(#[trigger] all[i]) by {
            if i < before.len() - 1 {
                assert(all[i] == before[i]);
            } else if i == before.len() - 1 {
                assert(slash_free(before[i]));
            }
        }
    }
}

proof fn lemma_names_come_from(list: Seq<Seq<u8>>)
    ensures
        forall|i: int|
            0 <= i < names(list).len() ==> list.contains(#[trigger] names(list)[i]) && is_name(
                names(list)[i],
            ),
    decreases list.len(),
{
    if list.len() > 0 {
        let rest = list.drop_last();
        lemma_names_come_from(rest);
        assert forall|i: int| 0 <= i < names(list).len() implies list.contains(
            #[trigger] names(list)[i],
        ) && is_name(names(list)[i]) by {
            if i < names(rest).len() {
                assert(names(list)[i] == names(rest)[i]);
                let k = choose|k: int| 0 <= k < rest.len() && rest[k] == names(rest)[i];
                assert(list[k] == names(list)[i]);
            } else {
                assert(list[list.len() - 1] == names(list)[i]);
            }
        }
    }
}

proof fn lemma_pieces_append(head: Seq<u8>, tail: Seq<u8>)
    requires
        slash_free(tail),
    ensures
        pieces(head.push(47) + tail) == pieces(head).push(tail),
    decreases tail.len(),
{
    let whole = head.push(47) + tail;
    if tail.len() == 0 {
        assert(whole =~= head.push(47));
        assert(whole.drop_last() =~= head);
        assert(tail =~= Seq::<u8>::empty());
    } else {
        let shorter = tail.drop_last();
        assert forall|i: int| 0 <= i < shorter.len() implies #[trigger] shorter[i] != 47 by {
            assert(tail[i] != 47);
        }
        lemma_pieces_append(head, shorter);
        assert(whole.drop_last() =~= head.push(47) + shorter);
        assert(whole.last() == tail.last());
        assert(tail[tail.len() - 1] != 47);
        let before = pieces(head).push(shorter);
        assert(before.drop_last() =~= pieces(head));
        assert(shorter.push(tail.last()) =~= tail);
    }
}

proof fn lemma_pieces_single(piece: Seq<u8>)
    requires
        slash_free(piece),
    ensures
        pieces(piece) == seq![piece],
    decreases piece.len(),
{
    if piece.len() == 0 {
        assert(piece =~= Seq::<u8>::empty());
    } else {
        let shorter = piece.drop_last();
        assert forall|i: int| 0 <= i < shorter.len() implies #[trigger] shorter[i] != 47 by {
            assert(piece[i] != 47);
        }
        lemma_pieces_single(shorter);
        assert(piece[piece.len() - 1] != 47);
        assert(shorter.push(piece.last()) =~= piece);
        assert(pieces(piece) =~= seq![piece]);
    }
}

proof fn lemma_pieces_of_joined(list: Seq<Seq<u8>>)
    requires
        list.len() > 0,
        forall|i: int| 0 <= i < list.len() ==> slash_free(#[trigger] list[i]),
    ensures
        pieces(joined(list)) == list,
    decreases list.len(),
{
    assert(slash_free(list[0]));
    if list.len() == 1 {
        lemma_pieces_single(list[0]);
        assert(seq![list[0]] =~= list);
    } else {
        let rest = list.drop_last();
        assert forall|i: int| 0 <= i < rest.len() implies slash_free(#[trigger] rest[i]) by {
            assert(rest[i] == list[i]);
        }
        lemma_pieces_of_joined(rest);
        assert(slash_free(list[list.len() - 1]));
        lemma_pieces_append(joined(rest), list.last());
        assert(joined(rest).push(47) + list.last() =~= joined(rest) + seq![47u8] + list.last());
        assert(rest.push(list.last()) =~= list);
    }
}

/// The path that an entry is put at stays below the target directory: it does not
/// start at the root, and none of its pieces leads to a parent.
pub proof fn law_entry_path_stays_inside(path: Seq<u8>)
    ensures
        entry_path(path) matches Some(p) ==> !(p.len() > 0 && p[0] == 47) && !climbs(pieces(p)),
{
    if entry_path(path) is Some {
        let all = pieces(path);
        let kept = names(all);
        let p = joined(kept);
        lemma_pieces_slash_free(path);
        lemma_names_come_from(all);
        if kept.len() == 0 {
            assert(pieces(p) =~= seq![Seq::<u8>::empty()]);
            assert(!climbs(pieces(p)));
        } else {
            assert forall|i: int| 0 <= i < kept.len() implies slash_free(#[trigger] kept[i]) by {
                let k = choose|k: int| 0 <= k < all.len() && all[k] == kept[i];
                assert(slash_free(all[k]));
            }
            lemma_pieces_of_joined(kept);
            if climbs(pieces(p)) {
                let i = choose|i: int| 0 <= i < kept.len() && is_parent(#[trigger] kept[i]);
                let k = choose|k: int| 0 <= k < all.len() && all[k] == kept[i];
                assert(is_parent(all[k]));
            }
            if p.len() > 0 && p[0] == 47 {
                lemma_first_byte(kept);
                assert(kept[0][0] == 47);
                assert(slash_free(kept[0]));
            }
        }
    }
}

proof fn lemma_first_byte(list: Seq<Seq<u8>>)
    requires
        list.len() > 0,
        list[0].len() > 0,
    ensures
        joined(list).len() > 0,
        joined(list)[0] == list[0][0],
    decreases list.len(),
{
    if list.len() > 1 {
        assert(list.drop_last()[0] == list[0]);
        lemma_first_byte(list.drop_last());
    }
}

/// A path that is safe and made of names alone is kept as it is.
pub proof fn law_normal_path_is_kept(list: Seq<Seq<u8>>)
    requires
        list.len() > 0,
        forall|i: int|
            0 <= i < list.len() ==> slash_free(#[trigger] list[i]) && is_name(list[i])
                && !is_parent(list[i]),
    ensures
        entry_path(joined(list)) == Some(joined(list)),
{
    lemma_pieces_of_joined(list);
    lemma_all_names(list);
    assert(slash_free(list[0]) && is_name(list[0]));
    lemma_first_byte(list);
    assert(list[0][0] != 47);
    assert(!climbs(list)) by {
        if climbs(list) {
            let i = choose|i: int| 0 <= i < list.len() && is_parent(#[trigger] list[i]);
            assert(!is_parent(list[i]));
        }
    }
}

proof fn lemma_all_names(list: Seq<Seq<u8>>)
    requires
        forall|i: int| 0 <= i < list.len() ==> is_name(#[trigger] list[i]),
    ensures
        names(list) == list,
    decreases list.len(),
{
    if list.len() > 0 {
        let rest = list.drop_last();
        assert forall|i: int| 0 <= i < rest.len() implies is_name(#[trigger] rest[i]) by {
            assert(rest[i] == list[i]);
        }
        lemma_all_names(rest);
        assert(is_name(list[list.len() - 1]));
        assert(rest.push(list.last()) =~= list);
    }
}

// ---------------------------------------------------------------------------
// The entries of an archive
// ---------------------------------------------------------------------------

/// What the header of a tar entry says.
#[derive(Debug)]
pub struct TarMember {
    pub path: Vec<u8>,
    pub is_dir: bool,
    pub is_file: bool,
    /// The entry's type, as it is reported.
    pub kind_label: String,
    /// The size, where the header holds one.
    pub size: Option<u64>,
}

/// The model of a [`TarMember`].
pub struct TarMemberView {
    pub path: Seq<u8>,
    pub is_dir: bool,
    pub is_file: bool,
    pub kind_label: Seq<char>,
    pub size: Option<u64>,
}

impl View for TarMember {
    type V = TarMemberView;

    open spec fn view(&self) -> TarMemberView {
        TarMemberView {
            path: self.path@,
            is_dir: self.is_dir,
            is_file: self.is_file,
            kind_label: self.kind_label@,
            size: self.size,
        }
    }
}

/// The model of an entry, or of the reason why it could not be read.
pub open spec fn tar_entry_view(entry: Result<TarMember, String>) -> Result<
    TarMemberView,
    Seq<char>,
> {
    match entry {
        Ok(m) => Ok(m@),
        Err(e) => Err(e@),
    }
}

/// The model of a list of entries.
pub open spec fn tar_entries_view(entries: Seq<Result<TarMember, String>>) -> Seq<
    Result<TarMemberView, Seq<char>>,
> {
    entries.map_values(|e: Result<TarMember, String>| tar_entry_view(e))
}

/// The entries of a gzip-compressed tar archive, in order; an entry that cannot be read
/// is the last one. `Err` where the archive cannot be opened.
pub uninterp spec fn tar_listing_of(bytes: Seq<u8>) -> Result<
    Seq<Result<TarMemberView, Seq<char>>>,
    Seq<char>,
>;

/// `tar::Archive::entries` over `flate2::read::GzDecoder`: the headers of all entries,
/// each taken apart by `path_bytes`, `entry_type` and `size`, and the reason where one
/// cannot be read. All of it depends on the bytes alone and is known under the name
/// [`tar_listing_of`].
#[verifier::external_body]
fn tar_listing(bytes: &[u8]) -> (r: Result<Vec<Result<TarMember, String>>, String>)
    ensures
        match r {
            Ok(entries) => tar_listing_of(bytes@) == Ok::<_, Seq<char>>(
                tar_entries_view(entries@),
            ),
            Err(e) => tar_listing_of(bytes@) == Err::<
                Seq<Result<TarMemberView, Seq<char>>>,
                _,
            >(e@),
        },
{
    let mut archive = tar::Archive::new(flate2::read::GzDecoder::new(bytes));
    let entries = archive.entries().map_err(|e| e.to_string())?;
    Ok(entries.map(|entry| match entry {
        Ok(e) => Ok(TarMember {
            path: e.path_bytes().into_owned(),
            is_dir: e.header().entry_type().is_dir(),
            is_file: e.header().entry_type().is_file(),
            kind_label: format!("{:?}", e.header().entry_type()),
            size: e.header().size().ok(),
        }),
        Err(e) => Err(e.to_string()),
    }).collect())
}

/// The depth below the start that a walk over the pieces ends at; `None` where it leads
/// above the start on its way.
pub open spec fn depth_after(pieces: Seq<Seq<u8>>) -> Option<nat>
    decreases pieces.len(),
{
    if pieces.len() == 0 {
        Some(0)
    } else {
        match depth_after(pieces.drop_last()) {
            None => None,
            Some(depth) => if is_parent(pieces.last()) {
                if depth > 0 {
                    Some((depth - 1) as nat)
                } else {
                    None
                }
            } else if is_name(pieces.last()) {
                Some(depth + 1)
            } else {
                Some(depth)
            },
        }
    }
}

/// The name starts below the target directory: it does not start at the root, and its
/// first piece does not lead to the parent.
pub open spec fn starts_below(name: Seq<u8>) -> bool {
    !(name.len() > 0 && name[0] == 47) && !is_parent(pieces(name)[0])
}

/// The name is a path that stays below the target directory wherever a slash alone
/// separates pieces: it holds no zero byte, does not start at the root, and the walk
/// over its pieces never leads above the start.
pub open spec fn stays_below(name: Seq<u8>) -> bool {
    !name.contains(0u8) && !(name.len() > 0 && name[0] == 47) && depth_after(pieces(name)) is Some
}

/// Every platform splits the name at its slashes and nowhere else: it holds no backslash
/// and no colon.
pub open spec fn is_portable(name: Seq<u8>) -> bool {
    !name.contains(92u8) && !name.contains(58u8)
}

/// What the directory of a zip archive says of an entry.
#[derive(Debug)]
pub struct ZipMember {
    /// The name, in UTF-8.
    pub name: Vec<u8>,
    /// The path, where it is one that stays below the target directory.
    pub enclosed: Option<Vec<u8>>,
    pub is_dir: bool,
    pub size: u64,
}

/// The model of a [`ZipMember`].
pub struct ZipMemberView {
    pub name: Seq<u8>,
    pub enclosed: Option<Seq<u8>>,
    pub is_dir: bool,
    pub size: u64,
}

/// The model of an optional row of bytes.
pub open spec fn opt_bytes(o: Option<Vec<u8>>) -> Option<Seq<u8>> {
    match o {
        Some(v) => Some(v@),
        None => None,
    }
}

impl View for ZipMember {
    type V = ZipMemberView;

    open spec fn view(&self) -> ZipMemberView {
        ZipMemberView {
            name: self.name@,
            enclosed: opt_bytes(self.enclosed),
            is_dir: self.is_dir,
            size: self.size,
        }
    }
}

/// The model of an entry, or of the reason why it could not be read.
pub open spec fn zip_entry_view(entry: Result<ZipMember, String>) -> Result<
    ZipMemberView,
    Seq<char>,
> {
    match entry {
        Ok(m) => Ok(m@),
        Err(e) => Err(e@),
    }
}

/// The model of a list of entries.
pub open spec fn zip_entries_view(entries: Seq<Result<ZipMember, String>>) -> Seq<
    Result<ZipMemberView, Seq<char>>,
> {
    entries.map_values(|e: Result<ZipMember, String>| zip_entry_view(e))
}

/// What every platform makes of a zip archive: whether each entry is a directory, its
/// size and its name, or the reason why it cannot be read. `Err` where the archive
/// cannot be opened.
pub uninterp spec fn zip_listing_of(bytes: Seq<u8>) -> Result<
    Seq<Result<(bool, u64, Seq<u8>), Seq<char>>>,
    Seq<char>,
>;

/// The part of an entry that no platform has a say in.
pub open spec fn zip_facts(entry: Result<ZipMemberView, Seq<char>>) -> Result<
    (bool, u64, Seq<u8>),
    Seq<char>,
> {
    match entry {
        Ok(m) => Ok((m.is_dir, m.size, m.name)),
        Err(e) => Err(e),
    }
}

/// The part of every entry that no platform has a say in.
pub open spec fn all_zip_facts(entries: Seq<Result<ZipMemberView, Seq<char>>>) -> Seq<
    Result<(bool, u64, Seq<u8>), Seq<char>>,
> {
    entries.map_values(|e: Result<ZipMemberView, Seq<char>>| zip_facts(e))
}

/// The enclosed path of an entry is one that its name allows: it is the name itself,
/// holds no zero byte and starts below the target directory. For a name that every
/// platform splits alike there is such a path if and only if the name stays below.
pub open spec fn enclosure_fits(m: ZipMemberView) -> bool {
    &&& m.enclosed matches Some(path) ==> path == m.name && !path.contains(0u8) && starts_below(
        path,
    )
    &&& is_portable(m.name) ==> (m.enclosed is Some <==> stays_below(m.name))
}

/// Every enclosed path is one that the name of its entry allows.
pub open spec fn enclosures_fit(entries: Seq<Result<ZipMemberView, Seq<char>>>) -> bool {
    forall|i: int|
        0 <= i < entries.len() ==> match #[trigger] entries[i] {
            Ok(m) => enclosure_fits(m),
            Err(_) => true,
        }
}

/// The listing is one of the archive `bytes`, and every enclosed path is one that the
/// name of its entry allows.
pub open spec fn zip_listing_fits(
    listing: Result<Seq<Result<ZipMemberView, Seq<char>>>, Seq<char>>,
    bytes: Seq<u8>,
) -> bool {
    match listing {
        Ok(entries) => zip_listing_of(bytes) == Ok::<_, Seq<char>>(all_zip_facts(entries))
            && enclosures_fit(entries),
        Err(e) => zip_listing_of(bytes) == Err::<Seq<Result<(bool, u64, Seq<u8>), Seq<char>>>, _>(
            e,
        ),
    }
}

/// `zip::ZipArchive::new` and `by_index` for every entry, each taken apart by `name`,
/// `enclosed_name`, `is_dir` and `size`, and the reason where one cannot be read. What
/// depends on the bytes alone is known under the name [`zip_listing_of`].
///
/// `enclosed_name` gives the entry's own name or nothing. It refuses a zero byte, a name
/// that starts at the root and one whose components lead above the start. Where a name
/// holds a backslash or a colon, how it splits into components is up to the platform, and
/// whether it counts as enclosed is left open but for its first piece; for all other
/// names it is said.
#[verifier::external_body]
fn zip_listing(bytes: &[u8]) -> (r: Result<Vec<Result<ZipMember, String>>, String>)
    ensures
        match r {
            Ok(entries) => zip_listing_of(bytes@) == Ok::<_, Seq<char>>(
                all_zip_facts(zip_entries_view(entries@)),
            ) && enclosures_fit(zip_entries_view(entries@)),
            Err(e) => zip_listing_of(bytes@) == Err::<
                Seq<Result<(bool, u64, Seq<u8>), Seq<char>>>,
                _,
            >(e@),
        },
{
    let mut archive =
        zip::ZipArchive::new(std::io::Cursor::new(bytes)).map_err(|e| e.to_string())?;
    Ok((0..archive.len()).map(|i| match archive.by_index(i) {
        Ok(file) => Ok(ZipMember {
            name: file.name().as_bytes().to_vec(),
            enclosed: file.enclosed_name().map(|p| p.into_os_string().into_encoded_bytes()),
            is_dir: file.is_dir(),
            size: file.size(),
        }),
        Err(e) => Err(e.to_string()),
    }).collect())
}

// ---------------------------------------------------------------------------
// What to extract
// ---------------------------------------------------------------------------

/// A step of extracting an archive: what to make of the entry at `index`, and where.
#[derive(Debug)]
pub struct ExtractAction {
    pub index: usize,
    pub path: Vec<u8>,
    /// Make a directory; otherwise write a file.
    pub is_dir: bool,
}

/// The model of an [`ExtractAction`].
pub struct ExtractActionView {
    pub index: int,
    pub path: Seq<u8>,
    pub is_dir: bool,
}

impl View for ExtractAction {
    type V = ExtractActionView;

    open spec fn view(&self) -> ExtractActionView {
        ExtractActionView { index: self.index as int, path: self.path@, is_dir: self.is_dir }
    }
}

/// What to do with an archive: the actions in order and, once they are done, the error
/// to report if there is one.
#[derive(Debug)]
pub struct ExtractPlan {
    pub actions: Vec<ExtractAction>,
    pub error: Option<AppCommandError>,
}

/// The model of an [`ExtractPlan`].
#[verifier::ext_equal]
pub struct ExtractPlanView {
    pub actions: Seq<ExtractActionView>,
    pub error: Option<ErrorView>,
}

impl View for ExtractPlan {
    type V = ExtractPlanView;

    open spec fn view(&self) -> ExtractPlanView {
        ExtractPlanView {
            actions: self.actions@.map_values(|a: ExtractAction| a@),
            error: match self.error {
                Some(e) => Some(e@),
                None => None,
            },
        }
    }
}

impl ExtractPlanView {
    pub open spec fn stop(error: ErrorView) -> ExtractPlanView {
        ExtractPlanView { actions: Seq::empty(), error: Some(error) }
    }

    pub open spec fn end() -> ExtractPlanView {
        ExtractPlanView { actions: Seq::empty(), error: None }
    }

    /// The same plan after one more action.
    pub open spec fn after(self, action: ExtractActionView) -> ExtractPlanView {
        ExtractPlanView { actions: seq![action] + self.actions, error: self.error }
    }
}

/// The error for a step of reading an archive that failed for the reason `detail`.
pub open spec fn extract_failed(what: Seq<char>, detail: Seq<char>) -> ErrorView {
    ErrorView::plain(
        AppErrorCode::TaskExecutionFailed,
        "Failed to "@ + what + " from update package"@,
    ).with_detail(detail)
}

/// The error for an archive whose files are too large together.
pub open spec fn archive_too_large() -> ErrorView {
    ErrorView::plain(
        AppErrorCode::InvalidInput,
        "Update archive decompresses to more than the allowed size"@,
    )
}

/// The error for an entry that is neither a file nor a directory.
pub open spec fn unsupported_entry(kind_label: Seq<char>, path: Seq<u8>) -> ErrorView {
    ErrorView::plain(
        AppErrorCode::InvalidInput,
        "Update archive contains an unsupported entry type ("@ + kind_label + "): "@
            + crate::bytes::lossy_utf8(path),
    )
}

/// The size that an entry counts for.
pub open spec fn counted_size(size: Option<u64>) -> int {
    match size {
        Some(n) => n as int,
        None => 0,
    }
}

/// What to do with the entries of a tar archive from the one at `from` on, where the
/// files before it come to `extracted` bytes. Directories are made and files written;
/// the first entry with an unsafe path, of another type or over the size limit ends
/// the plan.
pub open spec fn tar_plan_from(
    entries: Seq<Result<TarMemberView, Seq<char>>>,
    from: int,
    extracted: int,
) -> ExtractPlanView
    decreases entries.len() - from,
{
    if from < 0 || from >= entries.len() {
        ExtractPlanView::end()
    } else {
        match entries[from] {
            Err(detail) => ExtractPlanView::stop(extract_failed("read tar entry"@, detail)),
            Ok(m) => match entry_path(m.path) {
                None => ExtractPlanView::stop(unsafe_path(m.path)),
                Some(path) => if m.is_dir {
                    tar_plan_from(entries, from + 1, extracted).after(
                        ExtractActionView { index: from, path, is_dir: true },
                    )
                } else if m.is_file {
                    let total = extracted + counted_size(m.size);
                    if total > MAX_EXTRACTED_BYTES {
                        ExtractPlanView::stop(archive_too_large())
                    } else {
                        tar_plan_from(entries, from + 1, total).after(
                            ExtractActionView { index: from, path, is_dir: false },
                        )
                    }
                } else {
                    ExtractPlanView::stop(unsupported_entry(m.kind_label, path))
                },
            },
        }
    }
}

/// What to do with a tar archive that could be read as `listing`.
pub open spec fn tar_plan(
    listing: Result<Seq<Result<TarMemberView, Seq<char>>>, Seq<char>>,
) -> ExtractPlanView {
    match listing {
        Ok(entries) => tar_plan_from(entries, 0, 0),
        Err(detail) => ExtractPlanView::stop(extract_failed("read tar entries"@, detail)),
    }
}

/// What to do with the entries of a zip archive from the one at `from` on.
pub open spec fn zip_plan_from(
    entries: Seq<Result<ZipMemberView, Seq<char>>>,
    from: int,
    extracted: int,
) -> ExtractPlanView
    decreases entries.len() - from,
{
    if from < 0 || from >= entries.len() {
        ExtractPlanView::end()
    } else {
        match entries[from] {
            Err(detail) => ExtractPlanView::stop(extract_failed("read zip entry"@, detail)),
            Ok(m) => match m.enclosed {
                None => ExtractPlanView::stop(
                    ErrorView::plain(
                        AppErrorCode::InvalidInput,
                        "Update archive contains an unsafe path entry"@,
                    ),
                ),
                Some(path) => if m.is_dir {
                    zip_plan_from(entries, from + 1, extracted).after(
                        ExtractActionView { index: from, path, is_dir: true },
                    )
                } else {
                    let total = extracted + m.size;
                    if total > MAX_EXTRACTED_BYTES {
                        ExtractPlanView::stop(archive_too_large())
                    } else {
                        zip_plan_from(entries, from + 1, total).after(
                            ExtractActionView { index: from, path, is_dir: false },
                        )
                    }
                },
            },
        }
    }
}

/// What to do with a zip archive that could be read as `listing`.
pub open spec fn zip_plan(
    listing: Result<Seq<Result<ZipMemberView, Seq<char>>>, Seq<char>>,
) -> ExtractPlanView {
    match listing {
        Ok(entries) => zip_plan_from(entries, 0, 0),
        Err(detail) => ExtractPlanView::stop(extract_failed("open zip"@, detail)),
    }
}

/// The error for a step of reading an archive that failed.
pub fn extract_err(what: &str, detail: &str) -> (r: AppCommandError)
    ensures
        r@ == extract_failed(what@, detail@),
{
    let mut message: String = "Failed to ".to_owned();
    message.append(what);
    message.append(" from update package");
    AppCommandError::new(AppErrorCode::TaskExecutionFailed, message).with_detail(detail.to_owned())
}

fn too_large_error() -> (r: AppCommandError)
    ensures
        r@ == archive_too_large(),
{
    AppCommandError::invalid_input(
        "Update archive decompresses to more than the allowed size".to_owned(),
    )
}

fn unsupported_error(kind_label: &str, path: &[u8]) -> (r: AppCommandError)
    ensures
        r@ == unsupported_entry(kind_label@, path@),
{
    let mut message: String = "Update archive contains an unsupported entry type (".to_owned();
    message.append(kind_label);
    message.append("): ");
    message.append(lossy_text(path).as_str());
    AppCommandError::invalid_input(message)
}

/// The actions done so far, then the rest of the plan.
spec fn followed_by(done: Seq<ExtractActionView>, rest: ExtractPlanView) -> ExtractPlanView {
    ExtractPlanView { actions: done + rest.actions, error: rest.error }
}

proof fn lemma_followed(done: Seq<ExtractActionView>, a: ExtractActionView, rest: ExtractPlanView)
    ensures
        followed_by(done, rest.after(a)) == followed_by(done.push(a), rest),
{
    assert(done + (seq![a] + rest.actions) =~= done.push(a) + rest.actions);
}

fn push_action(actions: &mut Vec<ExtractAction>, index: usize, path: Vec<u8>, is_dir: bool)
    ensures
        final(actions)@.map_values(|a: ExtractAction| a@) == old(actions)@.map_values(
            |a: ExtractAction| a@,
        ).push(ExtractActionView { index: index as int, path: path@, is_dir }),
{
    let ghost before = actions@.map_values(|a: ExtractAction| a@);
    let ghost action = ExtractActionView { index: index as int, path: path@, is_dir };
    actions.push(ExtractAction { index, path, is_dir });
    assert(actions@.map_values(|a: ExtractAction| a@) =~= before.push(action));
}

/// What to do with a tar archive whose entries are `entries`.
pub fn plan_tar_members(entries: &Vec<Result<TarMember, String>>) -> (r: ExtractPlan)
    ensures
        r@ == tar_plan_from(tar_entries_view(entries@), 0, 0),
{
    let ghost all = tar_entries_view(entries@);
    let mut actions: Vec<ExtractAction> = Vec::new();
    let mut extracted: u64 = 0;
    let mut i: usize = 0;
    let ghost mut done = Seq::<ExtractActionView>::empty();
    proof {
        assert(actions@.map_values(|a: ExtractAction| a@) =~= done);
        assert(followed_by(done, tar_plan_from(all, 0, 0)) =~= tar_plan_from(all, 0, 0));
    }
    while i < entries.len()
        invariant
            i <= entries@.len(),
            all == tar_entries_view(entries@),
            extracted <= MAX_EXTRACTED_BYTES,
            done == actions@.map_values(|a: ExtractAction| a@),
            tar_plan_from(all, 0, 0) == followed_by(
                done,
                tar_plan_from(all, i as int, extracted as int),
            ),
        decreases entries.len() - i,
    {
        assert(all[i as int] == tar_entry_view(entries@[i as int]));
        let error: AppCommandError = match &entries[i] {
            Err(detail) => extract_err("read tar entry", detail.as_str()),
            Ok(m) => match sanitize_entry_path(m.path.as_slice()) {
                Err(e) => e,
                Ok(path) => {
                    if m.is_dir {
                        let ghost action = ExtractActionView {
                            index: i as int,
                            path: path@,
                            is_dir: true,
                        };
                        proof {
                            lemma_followed(
                                done,
                                action,
                                tar_plan_from(all, i + 1, extracted as int),
                            );
                            done = done.push(action);
                        }
                        push_action(&mut actions, i, path, true);
                        i = i + 1;
                        continue ;
                    }
                    if m.is_file {
                        let size: u64 = match m.size {
                            Some(n) => n,
                            None => 0,
                        };
                        let total: u64 = extracted.saturating_add(size);
                        if total > MAX_EXTRACTED_BYTES {
                            too_large_error()
                        } else {
                            let ghost action = ExtractActionView {
                                index: i as int,
                                path: path@,
                                is_dir: false,
                            };
                            proof {
                                lemma_followed(
                                    done,
                                    action,
                                    tar_plan_from(all, i + 1, total as int),
                                );
                                done = done.push(action);
                            }
                            push_action(&mut actions, i, path, false);
                            extracted = total;
                            i = i + 1;
                            continue ;
                        }
                    } else {
                        unsupported_error(m.kind_label.as_str(), path.as_slice())
                    }
                },
            },
        };
        let plan = ExtractPlan { actions, error: Some(error) };
        assert(plan@ =~= followed_by(done, ExtractPlanView::stop(error@)));
        return plan;
    }
    let plan = ExtractPlan { actions, error: None };
    assert(plan@ =~= followed_by(done, ExtractPlanView::end()));
    plan
}

/// What to do with a zip archive whose entries are `entries`.
pub fn plan_zip_members(entries: &Vec<Result<ZipMember, String>>) -> (r: ExtractPlan)
    ensures
        r@ == zip_plan_from(zip_entries_view(entries@), 0, 0),
{
    let ghost all = zip_entries_view(entries@);
    let mut actions: Vec<ExtractAction> = Vec::new();
    let mut extracted: u64 = 0;
    let mut i: usize = 0;
    let ghost mut done = Seq::<ExtractActionView>::empty();
    proof {
        assert(actions@.map_values(|a: ExtractAction| a@) =~= done);
        assert(followed_by(done, zip_plan_from(all, 0, 0)) =~= zip_plan_from(all, 0, 0));
    }
    while i < entries.len()
        invariant
            i <= entries@.len(),
            all == zip_entries_view(entries@),
            extracted <= MAX_EXTRACTED_BYTES,
            done == actions@.map_values(|a: ExtractAction| a@),
            zip_plan_from(all, 0, 0) == followed_by(
                done,
                zip_plan_from(all, i as int, extracted as int),
            ),
        decreases entries.len() - i,
    {
        assert(all[i as int] == zip_entry_view(entries@[i as int]));
        let error: AppCommandError = match &entries[i] {
            Err(detail) => extract_err("read zip entry", detail.as_str()),
            Ok(m) => match &m.enclosed {
                None => AppCommandError::invalid_input(
                    "Update archive contains an unsafe path entry".to_owned(),
                ),
                Some(enclosed) => {
                    let path: Vec<u8> = enclosed.clone();
                    assert(path@ =~= enclosed@);
                    let total: u64 = if m.is_dir {
                        extracted
                    } else {
                        extracted.saturating_add(m.size)
                    };
                    if total > MAX_EXTRACTED_BYTES {
                        too_large_error()
                    } else {
                        let ghost action = ExtractActionView {
                            index: i as int,
                            path: path@,
                            is_dir: m.is_dir,
                        };
                        proof {
                            lemma_followed(done, action, zip_plan_from(all, i + 1, total as int));
                            done = done.push(action);
                        }
                        push_action(&mut actions, i, path, m.is_dir);
                        extracted = total;
                        i = i + 1;
                        continue ;
                    }
                },
            },
        };
        let plan = ExtractPlan { actions, error: Some(error) };
        assert(plan@ =~= followed_by(done, ExtractPlanView::stop(error@)));
        return plan;
    }
    let plan = ExtractPlan { actions, error: None };
    assert(plan@ =~= followed_by(done, ExtractPlanView::end()));
    plan
}

fn stopped(error: AppCommandError) -> (r: ExtractPlan)
    ensures
        r@ == ExtractPlanView::stop(error@),
{
    let r = ExtractPlan { actions: Vec::new(), error: Some(error) };
    assert(r@ =~= ExtractPlanView::stop(error@));
    r
}

/// What to do with a gzip-compressed tar archive.
pub fn plan_tar_gz(bytes: &[u8]) -> (r: ExtractPlan)
    ensures
        r@ == tar_plan(tar_listing_of(bytes@)),
{
    match tar_listing(bytes) {
        Ok(entries) => plan_tar_members(&entries),
        Err(detail) => stopped(extract_err("read tar entries", detail.as_str())),
    }
}

/// An entry whose name every platform splits alike.
pub open spec fn portable_member(facts: Result<(bool, u64, Seq<u8>), Seq<char>>) -> Result<
    ZipMemberView,
    Seq<char>,
> {
    match facts {
        Ok((is_dir, size, name)) => Ok(
            ZipMemberView {
                name,
                enclosed: if stays_below(name) {
                    Some(name)
                } else {
                    None
                },
                is_dir,
                size,
            },
        ),
        Err(e) => Err(e),
    }
}

/// The listing of an archive whose names every platform splits alike.
pub open spec fn portable_listing(
    listing: Result<Seq<Result<(bool, u64, Seq<u8>), Seq<char>>>, Seq<char>>,
) -> Result<Seq<Result<ZipMemberView, Seq<char>>>, Seq<char>> {
    match listing {
        Ok(all) => Ok(
            all.map_values(|f: Result<(bool, u64, Seq<u8>), Seq<char>>| portable_member(f)),
        ),
        Err(e) => Err(e),
    }
}

/// Every platform splits the names of all entries alike.
pub open spec fn names_are_portable(
    listing: Result<Seq<Result<(bool, u64, Seq<u8>), Seq<char>>>, Seq<char>>,
) -> bool {
    listing matches Ok(all) ==> forall|i: int|
        0 <= i < all.len() ==> (#[trigger] all[i] matches Ok(f) ==> is_portable(f.2))
}

/// Every action stands for an entry that could be read and goes to the path that is the
/// entry's name. That path starts below the target directory and, where every platform
/// splits it alike, stays there.
pub open spec fn actions_follow_names(
    actions: Seq<ExtractActionView>,
    listing: Result<Seq<Result<(bool, u64, Seq<u8>), Seq<char>>>, Seq<char>>,
) -> bool {
    forall|i: int|
        0 <= i < actions.len() ==> {
            let a = #[trigger] actions[i];
            &&& listing is Ok
            &&& 0 <= a.index < listing->Ok_0.len()
            &&& listing->Ok_0[a.index] matches Ok(f) && f.0 == a.is_dir && f.2 == a.path
            &&& !a.path.contains(0u8)
            &&& starts_below(a.path)
            &&& is_portable(a.path) ==> stays_below(a.path)
        }
}

/// The plan is one for the zip archive `bytes`: it follows a listing of the archive, its
/// actions go to the names of the entries, and where every platform splits these names
/// alike there is no other.
pub open spec fn is_zip_plan(plan: ExtractPlanView, bytes: Seq<u8>) -> bool {
    &&& exists|listing: Result<Seq<Result<ZipMemberView, Seq<char>>>, Seq<char>>| #[trigger]
        zip_listing_fits(listing, bytes) && plan == zip_plan(listing)
    &&& actions_follow_names(plan.actions, zip_listing_of(bytes))
    &&& names_are_portable(zip_listing_of(bytes)) ==> plan == zip_plan(
        portable_listing(zip_listing_of(bytes)),
    )
}

proof fn lemma_is_zip_plan(
    listing: Result<Seq<Result<ZipMemberView, Seq<char>>>, Seq<char>>,
    bytes: Seq<u8>,
)
    requires
        zip_listing_fits(listing, bytes),
    ensures
        is_zip_plan(zip_plan(listing), bytes),
{
    let named = zip_listing_of(bytes);
    let plan = zip_plan(listing);
    match listing {
        Ok(entries) => {
            law_zip_plan_stays_inside(entries, 0, 0);
            assert forall|i: int| 0 <= i < plan.actions.len() implies {
                let a = #[trigger] plan.actions[i];
                &&& named is Ok
                &&& 0 <= a.index < named->Ok_0.len()
                &&& named->Ok_0[a.index] matches Ok(f) && f.0 == a.is_dir && f.2 == a.path
                &&& !a.path.contains(0u8)
                &&& starts_below(a.path)
                &&& is_portable(a.path) ==> stays_below(a.path)
            } by {
                let a = zip_plan_from(entries, 0, 0).actions[i];
                assert(named->Ok_0[a.index] == zip_facts(entries[a.index]));
            }
            if names_are_portable(named) {
                let members = portable_listing(named)->Ok_0;
                assert forall|i: int| 0 <= i < entries.len() implies entries[i] == members[i] by {
                    assert(named->Ok_0[i] == zip_facts(entries[i]));
                    assert(members[i] == portable_member(named->Ok_0[i]));
                }
                assert(members =~= entries);
            }
        },
        Err(_) => {},
    }
}

/// What to do with a zip archive.
pub fn plan_zip(bytes: &[u8]) -> (r: ExtractPlan)
    ensures
        is_zip_plan(r@, bytes@),
{
    match zip_listing(bytes) {
        Ok(entries) => {
            proof {
                lemma_is_zip_plan(Ok(zip_entries_view(entries@)), bytes@);
            }
            plan_zip_members(&entries)
        },
        Err(detail) => {
            proof {
                lemma_is_zip_plan(Err(detail@), bytes@);
            }
            stopped(extract_err("open zip", detail.as_str()))
        },
    }
}

/// What to do with an update archive: a zip where its extension says so, otherwise a
/// gzip-compressed tar.
pub fn plan_archive(bytes: &[u8], ext: &str) -> (r: ExtractPlan)
    ensures
        ext@ != ".zip"@ ==> r@ == tar_plan(tar_listing_of(bytes@)),
        ext@ == ".zip"@ ==> is_zip_plan(r@, bytes@),
{
    if crate::text::same_text(ext, ".zip") {
        plan_zip(bytes)
    } else {
        plan_tar_gz(bytes)
    }
}

/// The declared size of the files among the first actions of a tar plan.
pub open spec fn planned_bytes(
    actions: Seq<ExtractActionView>,
    entries: Seq<Result<TarMemberView, Seq<char>>>,
) -> int
    decreases actions.len(),
{
    if actions.len() == 0 {
        0
    } else {
        let a = actions.first();
        planned_bytes(actions.drop_first(), entries) + if a.is_dir {
            0
        } else {
            counted_size(entries[a.index]->Ok_0.size)
        }
    }
}

/// A tar plan touches files and directories below the target directory and nothing
/// else: every action stands for an entry that could be read and that is a directory or
/// a file, and its path neither starts at the root nor leads to a parent.
pub proof fn law_tar_plan_stays_inside(
    entries: Seq<Result<TarMemberView, Seq<char>>>,
    from: int,
    extracted: int,
)
    ensures
        forall|i: int|
            #![trigger tar_plan_from(entries, from, extracted).actions[i]]
            0 <= i < tar_plan_from(entries, from, extracted).actions.len() ==> {
                let a = tar_plan_from(entries, from, extracted).actions[i];
                &&& from <= a.index < entries.len()
                &&& entries[a.index] is Ok
                &&& entry_path(entries[a.index]->Ok_0.path) == Some(a.path)
                &&& a.is_dir ==> entries[a.index]->Ok_0.is_dir
                &&& !a.is_dir ==> entries[a.index]->Ok_0.is_file
                &&& !(a.path.len() > 0 && a.path[0] == 47)
                &&& !climbs(pieces(a.path))
            },
    decreases entries.len() - from,
{
    if 0 <= from < entries.len() && entries[from] is Ok {
        let m = entries[from]->Ok_0;
        law_entry_path_stays_inside(m.path);
        let total = if m.is_dir {
            extracted
        } else {
            extracted + counted_size(m.size)
        };
        law_tar_plan_stays_inside(entries, from + 1, total);
        let plan = tar_plan_from(entries, from, extracted);
        let rest = tar_plan_from(entries, from + 1, total);
        assert forall|i: int| #![trigger plan.actions[i]] 0 <= i < plan.actions.len() implies {
            let a = plan.actions[i];
            &&& from <= a.index < entries.len()
            &&& entries[a.index] is Ok
            &&& entry_path(entries[a.index]->Ok_0.path) == Some(a.path)
            &&& a.is_dir ==> entries[a.index]->Ok_0.is_dir
            &&& !a.is_dir ==> entries[a.index]->Ok_0.is_file
            &&& !(a.path.len() > 0 && a.path[0] == 47)
            &&& !climbs(pieces(a.path))
        } by {
            if i > 0 {
                assert(plan.actions[i] == rest.actions[i - 1]);
            }
        }
    }
}

/// The files of a tar plan come to no more than the limit, by the sizes that their
/// headers declare.
pub proof fn law_tar_plan_stays_small(
    entries: Seq<Result<TarMemberView, Seq<char>>>,
    from: int,
    extracted: int,
)
    requires
        0 <= extracted <= MAX_EXTRACTED_BYTES,
    ensures
        extracted + planned_bytes(tar_plan_from(entries, from, extracted).actions, entries)
            <= MAX_EXTRACTED_BYTES,
    decreases entries.len() - from,
{
    if 0 <= from < entries.len() && entries[from] is Ok {
        let m = entries[from]->Ok_0;
        let total = if m.is_dir {
            extracted
        } else {
            extracted + counted_size(m.size)
        };
        if total <= MAX_EXTRACTED_BYTES {
            law_tar_plan_stays_small(entries, from + 1, total);
            let plan = tar_plan_from(entries, from, extracted);
            let rest = tar_plan_from(entries, from + 1, total);
            if plan.actions.len() > 0 {
                assert(plan.actions.drop_first() =~= rest.actions);
            }
        }
    }
}

/// The declared size of the files among the first actions of a zip plan.
pub open spec fn planned_zip_bytes(
    actions: Seq<ExtractActionView>,
    entries: Seq<Result<ZipMemberView, Seq<char>>>,
) -> int
    decreases actions.len(),
{
    if actions.len() == 0 {
        0
    } else {
        let a = actions.first();
        planned_zip_bytes(actions.drop_first(), entries) + if a.is_dir {
            0
        } else {
            entries[a.index]->Ok_0.size as int
        }
    }
}

/// A zip plan touches enclosed paths and nothing else: every action stands for an entry
/// that could be read and goes to the path that the archive encloses it at.
pub proof fn law_zip_plan_follows_enclosed_paths(
    entries: Seq<Result<ZipMemberView, Seq<char>>>,
    from: int,
    extracted: int,
)
    ensures
        forall|i: int|
            #![trigger zip_plan_from(entries, from, extracted).actions[i]]
            0 <= i < zip_plan_from(entries, from, extracted).actions.len() ==> {
                let a = zip_plan_from(entries, from, extracted).actions[i];
                &&& from <= a.index < entries.len()
                &&& entries[a.index] is Ok
                &&& entries[a.index]->Ok_0.enclosed == Some(a.path)
                &&& entries[a.index]->Ok_0.is_dir == a.is_dir
            },
    decreases entries.len() - from,
{
    if 0 <= from < entries.len() && entries[from] is Ok {
        let m = entries[from]->Ok_0;
        let total = if m.is_dir {
            extracted
        } else {
            extracted + m.size
        };
        law_zip_plan_follows_enclosed_paths(entries, from + 1, total);
        let plan = zip_plan_from(entries, from, extracted);
        let rest = zip_plan_from(entries, from + 1, total);
        assert forall|i: int| #![trigger plan.actions[i]] 0 <= i < plan.actions.len() implies {
            let a = plan.actions[i];
            &&& from <= a.index < entries.len()
            &&& entries[a.index] is Ok
            &&& entries[a.index]->Ok_0.enclosed == Some(a.path)
            &&& entries[a.index]->Ok_0.is_dir == a.is_dir
        } by {
            if i > 0 {
                assert(plan.actions[i] == rest.actions[i - 1]);
            }
        }
    }
}

/// No part of the walk over the pieces leads above its start.
pub open spec fn never_above(pieces: Seq<Seq<u8>>) -> bool {
    forall|k: int| 0 <= k <= pieces.len() ==> depth_after(#[trigger] pieces.take(k)) is Some
}

proof fn lemma_depth_on_the_way(pieces: Seq<Seq<u8>>, k: int)
    requires
        depth_after(pieces) is Some,
        0 <= k <= pieces.len(),
    ensures
        depth_after(pieces.take(k)) is Some,
    decreases pieces.len(),
{
    if k == pieces.len() {
        assert(pieces.take(k) =~= pieces);
    } else {
        lemma_depth_on_the_way(pieces.drop_last(), k);
        assert(pieces.drop_last().take(k) =~= pieces.take(k));
    }
}

/// A zip plan touches files and directories below the target directory, as far as the
/// names of the entries tell it on every platform: every action goes to the name of an
/// entry that could be read, which neither starts at the root nor leads to the parent
/// with its first piece. Where the name holds no backslash and no colon, no part of the
/// way along its pieces leads above the target directory.
pub proof fn law_zip_plan_stays_inside(
    entries: Seq<Result<ZipMemberView, Seq<char>>>,
    from: int,
    extracted: int,
)
    requires
        enclosures_fit(entries),
    ensures
        forall|i: int|
            #![trigger zip_plan_from(entries, from, extracted).actions[i]]
            0 <= i < zip_plan_from(entries, from, extracted).actions.len() ==> {
                let a = zip_plan_from(entries, from, extracted).actions[i];
                &&& from <= a.index < entries.len()
                &&& entries[a.index] is Ok
                &&& entries[a.index]->Ok_0.name == a.path
                &&& entries[a.index]->Ok_0.is_dir == a.is_dir
                &&& !a.path.contains(0u8)
                &&& starts_below(a.path)
                &&& is_portable(a.path) ==> stays_below(a.path) && never_above(pieces(a.path))
            },
{
    law_zip_plan_follows_enclosed_paths(entries, from, extracted);
    let plan = zip_plan_from(entries, from, extracted);
    assert forall|i: int| #![trigger plan.actions[i]] 0 <= i < plan.actions.len() implies {
        let a = plan.actions[i];
        &&& from <= a.index < entries.len()
        &&& entries[a.index] is Ok
        &&& entries[a.index]->Ok_0.name == a.path
        &&& entries[a.index]->Ok_0.is_dir == a.is_dir
        &&& !a.path.contains(0u8)
        &&& starts_below(a.path)
        &&& is_portable(a.path) ==> stays_below(a.path) && never_above(pieces(a.path))
    } by {
        let a = plan.actions[i];
        assert(enclosure_fits(entries[a.index]->Ok_0));
        if is_portable(a.path) {
            assert forall|k: int| 0 <= k <= pieces(a.path).len() implies depth_after(
                #[trigger] pieces(a.path).take(k),
            ) is Some by {
                lemma_depth_on_the_way(pieces(a.path), k);
            }
        }
    }
}

/// The files of a zip plan come to no more than the limit, by the sizes that the archive
/// declares.
pub proof fn law_zip_plan_stays_small(
    entries: Seq<Result<ZipMemberView, Seq<char>>>,
    from: int,
    extracted: int,
)
    requires
        0 <= extracted <= MAX_EXTRACTED_BYTES,
    ensures
        extracted + planned_zip_bytes(zip_plan_from(entries, from, extracted).actions, entries)
            <= MAX_EXTRACTED_BYTES,
    decreases entries.len() - from,
{
    if 0 <= from < entries.len() && entries[from] is Ok {
        let m = entries[from]->Ok_0;
        let total = if m.is_dir {
            extracted
        } else {
            extracted + m.size
        };
        if total <= MAX_EXTRACTED_BYTES {
            law_zip_plan_stays_small(entries, from + 1, total);
            let plan = zip_plan_from(entries, from, extracted);
            let rest = zip_plan_from(entries, from + 1, total);
            if plan.actions.len() > 0 {
                assert(plan.actions.drop_first() =~= rest.actions);
            }
        }
    }
}

/// The declared size of the files among the entries from `from` up to `to`, without the
/// last.
pub open spec fn tar_bytes_between(
    entries: Seq<Result<TarMemberView, Seq<char>>>,
    from: int,
    to: int,
) -> int
    decreases to - from,
{
    if from >= to {
        0
    } else {
        tar_bytes_between(entries, from + 1, to) + match entries[from] {
            Ok(m) => if m.is_dir || m.size is None {
                0
            } else {
                m.size->0 as int
            },
            Err(_) => 0,
        }
    }
}

/// A plan for a tar archive leaves no entry out. It has one action for each entry, in the
/// order of the archive, up to the first that is refused; without an error that is one
/// for every entry.
pub proof fn law_tar_plan_covers_every_entry(
    entries: Seq<Result<TarMemberView, Seq<char>>>,
    from: int,
    extracted: int,
)
    requires
        0 <= from <= entries.len(),
    ensures
        ({
            let plan = tar_plan_from(entries, from, extracted);
            &&& forall|i: int|
                0 <= i < plan.actions.len() ==> (#[trigger] plan.actions[i]).index == from + i
            &&& plan.error is None ==> plan.actions.len() == entries.len() - from
            &&& plan.error is Some ==> plan.actions.len() < entries.len() - from
        }),
    decreases entries.len() - from,
{
    if from < entries.len() && entries[from] is Ok {
        let m = entries[from]->Ok_0;
        let total = if m.is_dir {
            extracted
        } else {
            extracted + counted_size(m.size)
        };
        law_tar_plan_covers_every_entry(entries, from + 1, total);
        let plan = tar_plan_from(entries, from, extracted);
        let rest = tar_plan_from(entries, from + 1, total);
        assert forall|i: int| 0 <= i < plan.actions.len() implies (
        #[trigger] plan.actions[i]).index == from + i by {
            if i > 0 {
                assert(plan.actions[i] == rest.actions[i - 1]);
            }
        }
    }
}

/// An entry for which a tar plan has an action can be read, has a path that is accepted
/// and written to, is a directory or a file and is treated as what it is; with it, the
/// files come to the limit of 1.5 GiB at most.
pub proof fn law_tar_plan_takes_what_is_accepted(
    entries: Seq<Result<TarMemberView, Seq<char>>>,
    from: int,
    extracted: int,
    i: int,
)
    requires
        0 <= from <= entries.len(),
        0 <= extracted <= 1_610_612_736,
        0 <= i < tar_plan_from(entries, from, extracted).actions.len(),
    ensures
        ({
            let a = tar_plan_from(entries, from, extracted).actions[i];
            &&& from + i < entries.len()
            &&& entries[from + i] matches Ok(m) && (m.is_dir || m.is_file) && a.is_dir == m.is_dir
                && entry_path(m.path) == Some(a.path)
            &&& extracted + tar_bytes_between(entries, from, from + i + 1) <= 1_610_612_736
        }),
    decreases entries.len() - from,
{
    let plan = tar_plan_from(entries, from, extracted);
    let m = entries[from]->Ok_0;
    let total = if m.is_dir {
        extracted
    } else {
        extracted + counted_size(m.size)
    };
    assert(tar_bytes_between(entries, from + 1, from + 1) == 0);
    assert(tar_bytes_between(entries, from, from + i + 1) == tar_bytes_between(
        entries,
        from + 1,
        from + i + 1,
    ) + (total - extracted));
    if i > 0 {
        let rest = tar_plan_from(entries, from + 1, total);
        assert(plan.actions[i] == rest.actions[i - 1]);
        law_tar_plan_takes_what_is_accepted(entries, from + 1, total, i - 1);
        assert(from + i + 1 == (from + 1) + (i - 1) + 1);
    }
}

/// What stops a plan for a tar archive. The entry behind the last action of a plan with an
/// error cannot be read, has a path that is refused, is neither a directory nor a file,
/// or is a file with which the files come to more than the limit of 1.5 GiB; the error
/// says which.
pub proof fn law_tar_plan_stops_at_what_is_refused(
    entries: Seq<Result<TarMemberView, Seq<char>>>,
    from: int,
    extracted: int,
)
    requires
        0 <= from <= entries.len(),
        0 <= extracted <= 1_610_612_736,
        tar_plan_from(entries, from, extracted).error is Some,
    ensures
        ({
            let plan = tar_plan_from(entries, from, extracted);
            let at = from + plan.actions.len();
            let e = plan.error->0;
            &&& at < entries.len()
            &&& match entries[at] {
                Err(detail) => e.code == AppErrorCode::TaskExecutionFailed && e.message
                    == "Failed to "@ + "read tar entry"@ + " from update package"@ && e.detail
                    == Some(detail),
                Ok(m) => {
                    &&& e.code == AppErrorCode::InvalidInput
                    &&& e.detail is None
                    &&& entry_path(m.path) is None ==> e.message
                        == "Update archive contains an unsafe path entry: "@
                        + crate::bytes::lossy_utf8(m.path)
                    &&& entry_path(m.path) matches Some(p) ==> if !m.is_dir && !m.is_file {
                        e.message == "Update archive contains an unsupported entry type ("@
                            + m.kind_label + "): "@ + crate::bytes::lossy_utf8(p)
                    } else {
                        &&& !m.is_dir
                        &&& extracted + tar_bytes_between(entries, from, at + 1) > 1_610_612_736
                        &&& e.message == "Update archive decompresses to more than the allowed size"@
                    }
                },
            }
        }),
    decreases entries.len() - from,
{
    let plan = tar_plan_from(entries, from, extracted);
    let at = from + plan.actions.len();
    assert(tar_bytes_between(entries, from + 1, from + 1) == 0);
    if entries[from] is Ok {
        let m = entries[from]->Ok_0;
        let total = if m.is_dir {
            extracted
        } else {
            extracted + counted_size(m.size)
        };
        assert(tar_bytes_between(entries, from, at + 1) == tar_bytes_between(
            entries,
            from + 1,
            at + 1,
        ) + (total - extracted));
        if entry_path(m.path) is Some && (m.is_dir || m.is_file) && total <= 1_610_612_736 {
            let rest = tar_plan_from(entries, from + 1, total);
            law_tar_plan_stops_at_what_is_refused(entries, from + 1, total);
            assert(at == from + 1 + rest.actions.len());
        }
    }
}

/// The declared size of the files among the entries of a zip archive from `from` up to
/// `to`, without the last.
pub open spec fn zip_bytes_between(
    entries: Seq<Result<ZipMemberView, Seq<char>>>,
    from: int,
    to: int,
) -> int
    decreases to - from,
{
    if from >= to {
        0
    } else {
        zip_bytes_between(entries, from + 1, to) + match entries[from] {
            Ok(m) => if m.is_dir {
                0
            } else {
                m.size as int
            },
            Err(_) => 0,
        }
    }
}

/// A plan for a zip archive leaves no entry out. It has one action for each entry, in the
/// order of the archive, up to the first that is refused; without an error that is one
/// for every entry.
pub proof fn law_zip_plan_covers_every_entry(
    entries: Seq<Result<ZipMemberView, Seq<char>>>,
    from: int,
    extracted: int,
)
    requires
        0 <= from <= entries.len(),
    ensures
        ({
            let plan = zip_plan_from(entries, from, extracted);
            &&& forall|i: int|
                0 <= i < plan.actions.len() ==> (#[trigger] plan.actions[i]).index == from + i
            &&& plan.error is None ==> plan.actions.len() == entries.len() - from
            &&& plan.error is Some ==> plan.actions.len() < entries.len() - from
        }),
    decreases entries.len() - from,
{
    if from < entries.len() && entries[from] is Ok {
        let m = entries[from]->Ok_0;
        let total = if m.is_dir {
            extracted
        } else {
            extracted + m.size
        };
        law_zip_plan_covers_every_entry(entries, from + 1, total);
        let plan = zip_plan_from(entries, from, extracted);
        let rest = zip_plan_from(entries, from + 1, total);
        assert forall|i: int| 0 <= i < plan.actions.len() implies (
        #[trigger] plan.actions[i]).index == from + i by {
            if i > 0 {
                assert(plan.actions[i] == rest.actions[i - 1]);
            }
        }
    }
}

/// An entry for which a zip plan has an action can be read, has a path that stays below the
/// target directory and is written to, and is treated as what it is; with it, the files
/// come to the limit of 1.5 GiB at most.
pub proof fn law_zip_plan_takes_what_is_accepted(
    entries: Seq<Result<ZipMemberView, Seq<char>>>,
    from: int,
    extracted: int,
    i: int,
)
    requires
        0 <= from <= entries.len(),
        0 <= extracted <= 1_610_612_736,
        0 <= i < zip_plan_from(entries, from, extracted).actions.len(),
    ensures
        ({
            let a = zip_plan_from(entries, from, extracted).actions[i];
            &&& from + i < entries.len()
            &&& entries[from + i] matches Ok(m) && a.is_dir == m.is_dir && m.enclosed == Some(
                a.path,
            )
            &&& extracted + zip_bytes_between(entries, from, from + i + 1) <= 1_610_612_736
        }),
    decreases entries.len() - from,
{
    let plan = zip_plan_from(entries, from, extracted);
    let m = entries[from]->Ok_0;
    let total = if m.is_dir {
        extracted
    } else {
        extracted + m.size
    };
    assert(zip_bytes_between(entries, from + 1, from + 1) == 0);
    assert(zip_bytes_between(entries, from, from + i + 1) == zip_bytes_between(
        entries,
        from + 1,
        from + i + 1,
    ) + (total - extracted));
    if i > 0 {
        let rest = zip_plan_from(entries, from + 1, total);
        assert(plan.actions[i] == rest.actions[i - 1]);
        law_zip_plan_takes_what_is_accepted(entries, from + 1, total, i - 1);
        assert(from + i + 1 == (from + 1) + (i - 1) + 1);
    }
}

/// What stops a plan for a zip archive. The entry behind the last action of a plan with an
/// error cannot be read, has no path that stays below the target directory, or is a file
/// with which the files come to more than the limit of 1.5 GiB; the error says which.
pub proof fn law_zip_plan_stops_at_what_is_refused(
    entries: Seq<Result<ZipMemberView, Seq<char>>>,
    from: int,
    extracted: int,
)
    requires
        0 <= from <= entries.len(),
        0 <= extracted <= 1_610_612_736,
        zip_plan_from(entries, from, extracted).error is Some,
    ensures
        ({
            let plan = zip_plan_from(entries, from, extracted);
            let at = from + plan.actions.len();
            let e = plan.error->0;
            &&& at < entries.len()
            &&& match entries[at] {
                Err(detail) => e.code == AppErrorCode::TaskExecutionFailed && e.message
                    == "Failed to "@ + "read zip entry"@ + " from update package"@ && e.detail
                    == Some(detail),
                Ok(m) => {
                    &&& e.code == AppErrorCode::InvalidInput
                    &&& e.detail is None
                    &&& m.enclosed is None ==> e.message
                        == "Update archive contains an unsafe path entry"@
                    &&& m.enclosed is Some ==> {
                        &&& !m.is_dir
                        &&& extracted + zip_bytes_between(entries, from, at + 1) > 1_610_612_736
                        &&& e.message == "Update archive decompresses to more than the allowed size"@
                    }
                },
            }
        }),
    decreases entries.len() - from,
{
    let plan = zip_plan_from(entries, from, extracted);
    let at = from + plan.actions.len();
    assert(zip_bytes_between(entries, from + 1, from + 1) == 0);
    if entries[from] is Ok {
        let m = entries[from]->Ok_0;
        let total = if m.is_dir {
            extracted
        } else {
            extracted + m.size
        };
        assert(zip_bytes_between(entries, from, at + 1) == zip_bytes_between(
            entries,
            from + 1,
            at + 1,
        ) + (total - extracted));
        if m.enclosed is Some && total <= 1_610_612_736 {
            let rest = zip_plan_from(entries, from + 1, total);
            law_zip_plan_stops_at_what_is_refused(entries, from + 1, total);
            assert(at == from + 1 + rest.actions.len());
        }
    }
}

/// An archive that cannot be opened gives no action, and an error that says why.
pub proof fn law_unreadable_archive_gives_no_action(detail: Seq<char>)
    ensures
        tar_plan(Err(detail)).actions.len() == 0,
        tar_plan(Err(detail)).error matches Some(e) && e.code == AppErrorCode::TaskExecutionFailed
            && e.detail == Some(detail),
        zip_plan(Err(detail)).actions.len() == 0,
        zip_plan(Err(detail)).error matches Some(e) && e.code == AppErrorCode::TaskExecutionFailed
            && e.detail == Some(detail),
{
}

/// A path is cut at its slashes and nowhere else: pieces without slashes, put together
/// with slashes between them, are the pieces of what comes out.
pub proof fn law_path_is_cut_at_slashes(list: Seq<Seq<u8>>)
    requires
        list.len() > 0,
        forall|i: int, k: int|
            0 <= i < list.len() && 0 <= k < list[i].len() ==> #[trigger] list[i][k] != 47,
    ensures
        pieces(joined(list)) == list,
{
    assert forall|i: int| 0 <= i < list.len() implies slash_free(#[trigger] list[i]) by {
    }
    lemma_pieces_of_joined(list);
}

/// Putting pieces together puts one slash between each two, and nothing else.
pub proof fn law_pieces_are_joined_by_slashes(head: Seq<Seq<u8>>, piece: Seq<u8>)
    ensures
        joined(seq![piece]) == piece,
        head.len() > 0 ==> joined(head.push(piece)) == joined(head) + seq![47u8] + piece,
{
    assert(head.push(piece).drop_last() =~= head);
}

/// A path is refused if it begins with a slash or has `..` as a piece, and for no other
/// reason.
pub proof fn law_refused_paths(list: Seq<Seq<u8>>)
    requires
        list.len() > 0,
        forall|i: int| 0 <= i < list.len() ==> slash_free(#[trigger] list[i]),
    ensures
        entry_path(joined(list)) is None <==> {
            ||| list.len() > 1 && list[0].len() == 0
            ||| exists|i: int| 0 <= i < list.len() && #[trigger] list[i] == seq![46u8, 46u8]
        },
{
    lemma_pieces_of_joined(list);
    lemma_starts_with_slash(list);
    if exists|i: int| 0 <= i < list.len() && #[trigger] list[i] == seq![46u8, 46u8] {
        let i = choose|i: int| 0 <= i < list.len() && #[trigger] list[i] == seq![46u8, 46u8];
        assert(is_parent(list[i]));
    }
}

proof fn lemma_starts_with_slash(list: Seq<Seq<u8>>)
    requires
        list.len() > 0,
        forall|i: int| 0 <= i < list.len() ==> slash_free(#[trigger] list[i]),
    ensures
        (joined(list).len() > 0 && joined(list)[0] == 47) <==> list.len() > 1 && list[0].len()
            == 0,
        list.len() > 1 ==> joined(list).len() > 0,
    decreases list.len(),
{
    if list.len() > 1 {
        let head = list.drop_last();
        assert forall|i: int| 0 <= i < head.len() implies slash_free(#[trigger] head[i]) by {
            assert(head[i] == list[i]);
        }
        lemma_starts_with_slash(head);
        assert(head[0] == list[0]);
        if head.len() == 1 {
            assert(joined(head) == head[0]);
        }
    }
}

/// Where a path is accepted, its empty pieces and its single dots are left out and every
/// other piece stays, in order.
pub proof fn law_accepted_path_keeps_its_names(list: Seq<Seq<u8>>, piece: Seq<u8>)
    requires
        list.len() > 0,
        list[0].len() > 0,
        slash_free(piece),
        piece != seq![46u8, 46u8],
        forall|i: int|
            0 <= i < list.len() ==> slash_free(#[trigger] list[i]) && list[i] != seq![46u8, 46u8],
    ensures
        piece.len() == 0 || piece == seq![46u8] ==> entry_path(joined(list.push(piece)))
            == entry_path(joined(list)),
        piece.len() > 0 && piece != seq![46u8] ==> (entry_path(joined(list)) matches Some(before)
            && entry_path(joined(list.push(piece))) == Some(
            if before.len() == 0 {
                piece
            } else {
                before + seq![47u8] + piece
            },
        )),
{
    let longer = list.push(piece);
    assert forall|i: int| 0 <= i < longer.len() implies slash_free(#[trigger] longer[i]) && !(
    longer[i] == seq![46u8, 46u8]) by {
        if i < list.len() {
            assert(longer[i] == list[i]);
        }
    }
    lemma_pieces_of_joined(list);
    lemma_pieces_of_joined(longer);
    lemma_starts_with_slash(list);
    lemma_starts_with_slash(longer);
    assert(longer.drop_last() =~= list);
    assert(!climbs(list));
    assert(!climbs(longer));
    if is_name(piece) {
        let kept = names(list);
        lemma_names_come_from(list);
        assert(names(longer) == kept.push(piece));
        assert(kept.push(piece).drop_last() =~= kept);
        if kept.len() > 0 {
            assert(is_name(kept[0]));
            lemma_first_byte(kept);
        }
    }
}

/// A name in a zip archive stays below the target directory if it holds no zero byte, does
/// not begin with a slash and never has more `..` than names before any of its pieces.
pub proof fn law_depth_of_a_path(before: Seq<Seq<u8>>, piece: Seq<u8>)
    ensures
        depth_after(Seq::empty()) == Some(0nat),
        depth_after(before) is None ==> depth_after(before.push(piece)) is None,
        depth_after(before) matches Some(depth) ==> depth_after(before.push(piece)) == if piece
            == seq![46u8, 46u8] {
            if depth == 0 {
                None
            } else {
                Some((depth - 1) as nat)
            }
        } else if piece.len() == 0 || piece == seq![46u8] {
            Some(depth)
        } else {
            Some(depth + 1)
        },
{
    assert(before.push(piece).drop_last() =~= before);
}

/// What the portable reading of a zip entry takes from its header.
pub proof fn law_portable_member(is_dir: bool, size: u64, name: Seq<u8>)
    ensures
        portable_member(Ok((is_dir, size, name))) matches Ok(m) && m.name == name && m.is_dir
            == is_dir && m.size == size && m.enclosed == if !name.contains(0u8) && !(name.len() > 0
            && name[0] == 47) && depth_after(pieces(name)) is Some {
            Some(name)
        } else {
            None
        },
{
}


} // verus!
