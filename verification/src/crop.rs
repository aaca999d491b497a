//! Pre-cropping the inputs of a job: which folders, which images, which
//! pixels.

use vstd::prelude::*;
use vstd::arithmetic::div_mod::lemma_fundamental_div_mod_converse;
use crate::h5::Region;
use crate::text::{chars_of, slice, Class, Text};
use crate::{files, number, paths, text};

verus! {

// ---------------------------------------------------------------------
// Pixels

/// Does the region lie within an image of this width and height, and is
/// there anything in it?
pub open spec fn fits(region: Region, w: nat, h: nat) -> bool {
    region.2 <= w && region.3 <= h && region.0 < region.2 && region.1 < region.3
}

/// The pixels of the region, row by row, of an image of width `w`.
pub open spec fn cropped<T>(values: Seq<T>, w: int, region: Region) -> Seq<T> {
    let cw = region.2 - region.0;
    let ch = region.3 - region.1;
    Seq::new(
        (cw * ch) as nat,
        |i: int| values[(region.1 + i / cw) * w + region.0 + i % cw],
    )
}

proof fn lemma_pixel(w: int, h: int, row: int, col: int)
    requires
        0 <= row < h,
        0 <= col < w,
    ensures
        0 <= row * w + col < w * h,
{
    assert(row * w + w <= w * h) by (nonlinear_arith)
        requires
            0 <= row < h,
            0 <= w,
    ;
    assert(0 <= row * w) by (nonlinear_arith)
        requires
            0 <= row,
            0 <= w,
    ;
}

/// The pixels of the region (exclusive stops) of a `w`×`h` image; `None`
/// where the region does not fit.
pub fn crop<T: Copy>(values: &Vec<T>, w: usize, h: usize, region: Region) -> (r: Option<Vec<T>>)
    requires
        values@.len() == w * h,
    ensures
        match r {
            Some(out) => fits(region, w as nat, h as nat) && out@ == cropped(
                values@,
                w as int,
                region,
            ),
            None => !fits(region, w as nat, h as nat),
        },
{
    let (x0, y0, x1, y1) = region;
    if x1 > w || y1 > h || x0 >= x1 || y0 >= y1 {
        return None;
    }
    let n: usize = values.len();
    let ghost cw = x1 - x0;
    let ghost want = cropped(values@, w as int, region);
    let mut out: Vec<T> = Vec::new();
    let mut row: usize = y0;
    while row < y1
        invariant
            x0 < x1 <= w,
            y0 <= row <= y1 <= h,
            region == (x0, y0, x1, y1),
            cw == x1 - x0,
            n == values@.len() == w * h,
            want == cropped(values@, w as int, region),
            out@.len() == (row - y0) * cw,
            forall|i: int| 0 <= i < out@.len() ==> out@[i] == #[trigger] want[i],
        decreases y1 - row,
    {
        proof {
            lemma_pixel(w as int, h as int, row as int, 0);
            lemma_pixel(w as int, h as int, row as int, x1 - 1);
            lemma_rows(row - y0, y1 - y0, cw);
        }
        let start: usize = row * w;
        let mut col: usize = x0;
        while col < x1
            invariant
                x0 <= col <= x1 <= w,
                x0 < x1,
                y0 <= row < y1 <= h,
                region == (x0, y0, x1, y1),
                cw == x1 - x0,
                n == values@.len() == w * h,
                start == row * w,
                start + x1 <= n,
                want == cropped(values@, w as int, region),
                want.len() == cw * (y1 - y0),
                (row - y0) * cw + cw <= cw * (y1 - y0),
                0 <= (row - y0) * cw,
                out@.len() == (row - y0) * cw + (col - x0),
                forall|i: int| 0 <= i < out@.len() ==> out@[i] == #[trigger] want[i],
            decreases x1 - col,
        {
            let ghost k = out@.len() as int;
            proof {
                lemma_fundamental_div_mod_converse(k, cw, row - y0, col - x0);
                assert(want[k] == values@[(y0 + k / cw) * w + x0 + k % cw]);
            }
            out.push(values[start + col]);
            col = col + 1;
        }
        assert((row + 1 - y0) * cw == (row - y0) * cw + cw) by (nonlinear_arith);
        row = row + 1;
    }
    assert((y1 - y0) * cw == cw * (y1 - y0)) by (nonlinear_arith);
    assert(out@ =~= want);
    Some(out)
}

proof fn lemma_rows(k: int, n: int, cw: int)
    requires
        0 <= k < n,
        0 < cw,
    ensures
        0 <= k * cw,
        k * cw + cw <= cw * n,
        0 <= cw * n,
{
    assert(k * cw + cw <= cw * n) by (nonlinear_arith)
        requires
            0 <= k < n,
            0 < cw,
    ;
    assert(0 <= k * cw) by (nonlinear_arith)
        requires
            0 <= k,
            0 < cw,
    ;
}

/// The first of every `spp` samples.
pub open spec fn every<T>(values: Seq<T>, spp: int, count: nat) -> Seq<T> {
    Seq::new(count, |i: int| values[i * spp])
}

/// The pixels of an image whose buffer holds `values`: the buffer, or the
/// first sample of each pixel where it holds several per pixel.
pub open spec fn pixels<T>(values: Seq<T>, w: u32, h: u32) -> Option<Seq<T>> {
    let expected = (w as int) * (h as int);
    if values.len() == expected {
        Some(values)
    } else if expected > 0 && values.len() as int % expected == 0 {
        Some(every(values, values.len() as int / expected, expected as nat))
    } else {
        None
    }
}

/// The image of a `w`×`h` page as one value per pixel. Extra samples per
/// pixel (e.g. RGB) keep only the first sample. `None` where the buffer is
/// not a whole number of images.
pub fn one_sample<T: Copy>(values: Vec<T>, w: u32, h: u32) -> (r: Option<Vec<T>>)
    requires
        values@.len() == 0 ==> w == 0 || h == 0,
    ensures
        match r {
            Some(out) => pixels(values@, w, h) == Some(out@),
            None => pixels(values@, w, h) is None,
        },
{
    assert((w as int) * (h as int) <= 0xffff_ffff * 0xffff_ffff) by (nonlinear_arith)
        requires
            0 <= w <= 0xffff_ffff,
            0 <= h <= 0xffff_ffff,
    ;
    assert((w as int) * (h as int) >= 0) by (nonlinear_arith)
        requires
            0 <= w,
            0 <= h,
    ;
    let expected: u64 = (w as u64) * (h as u64);
    let have: u64 = values.len() as u64;
    if have == expected {
        return Some(values);
    }
    if expected > 0 && have % expected == 0 {
        let spp: u64 = have / expected;
        let mut out: Vec<T> = Vec::new();
        proof {
            vstd::arithmetic::div_mod::lemma_fundamental_div_mod(have as int, expected as int);
            if have == 0 {
                assert((w as int) * (h as int) == 0) by (nonlinear_arith)
                    requires
                        w == 0 || h == 0,
                ;
            }
            if spp == 0 {
                assert(expected * spp == 0) by (nonlinear_arith)
                    requires
                        spp == 0,
                ;
            }
        }
        let mut i: u64 = 0;
        let mut at: u64 = 0;
        while i < expected
            invariant
                i <= expected,
                spp >= 1,
                expected * spp == have == values@.len(),
                at == i * spp,
                at <= have,
                out@ =~= every(values@, spp as int, i as nat),
            decreases expected - i,
        {
            proof {
                lemma_step(i as int, expected as int, spp as int);
            }
            out.push(values[at as usize]);
            at = at + spp;
            i = i + 1;
        }
        return Some(out);
    }
    None
}

proof fn lemma_step(i: int, n: int, spp: int)
    requires
        0 <= i < n,
        0 <= spp,
    ensures
        (i + 1) * spp == i * spp + spp,
        i * spp + spp <= n * spp,
{
    assert((i + 1) * spp == i * spp + spp) by (nonlinear_arith);
    assert(i * spp + spp <= n * spp) by (nonlinear_arith)
        requires
            0 <= i < n,
            0 <= spp,
    ;
}

// ---------------------------------------------------------------------
// Folders

/// An entry of an input folder: its name, and whether it is a file.
pub struct Item {
    pub name: String,
    pub is_file: bool,
}

/// The extension of a file name: what follows its last dot, where that is
/// not its first character.
pub open spec fn extension(name: Text) -> Text {
    let d = text::run_start(name, Class::Not('.'), name.len() as int);
    if d > 1 {
        name.skip(d)
    } else {
        Seq::empty()
    }
}

/// Is the entry a TIFF file?
pub open spec fn is_tiff_item(item: Item) -> bool {
    let ext = text::lowered(extension(item.name@));
    item.is_file && (ext == "tif"@ || ext == "tiff"@)
}

/// The names of the TIFF files among the entries.
pub open spec fn tiffs(items: Seq<Item>) -> Seq<Text> {
    items.filter(|item: Item| is_tiff_item(item)).map_values(|item: Item| item.name@)
}

fn tiff_item(item: &Item) -> (r: bool)
    ensures
        r == is_tiff_item(*item),
{
    let v = chars_of(item.name.as_str());
    let d = text::start_of_run(&v, Class::Not('.'), v.len());
    let ext = if d > 1 {
        let e = slice(&v, d, v.len());
        assert(e@ =~= item.name@.skip(d as int));
        e
    } else {
        String::new()
    };
    assert(ext@ =~= extension(item.name@));
    let low = text::lowercase(ext.as_str());
    item.is_file && (text::same(low.as_str(), "tif") || text::same(low.as_str(), "tiff"))
}

/// The names of the TIFF files among the entries, in dictionary order.
pub fn list_tiff(items: &Vec<Item>) -> (r: Vec<String>)
    ensures
        text::all_in_order(text::texts(r@)),
        text::texts(r@).to_multiset() == tiffs(items@).to_multiset(),
{
    let ghost keep = |item: Item| is_tiff_item(item);
    let ghost name = |item: Item| item.name@;
    let mut out: Vec<String> = Vec::new();
    let mut i: usize = 0;
    assert(items@.take(0).filter(keep).map_values(name) =~= Seq::empty()) by {
        reveal(Seq::filter);
    }
    assert(text::texts(out@) =~= Seq::empty());
    while i < items.len()
        invariant
            i <= items@.len(),
            keep == (|item: Item| is_tiff_item(item)),
            name == (|item: Item| item.name@),
            text::texts(out@) == items@.take(i as int).filter(keep).map_values(name),
        decreases items@.len() - i,
    {
        proof {
            reveal(Seq::filter);
            assert(items@.take(i + 1).drop_last() =~= items@.take(i as int));
            assert(items@.take(i + 1).last() == items@[i as int]);
        }
        if tiff_item(&items[i]) {
            let n = items[i].name.clone();
            let ghost before = out@;
            out.push(n);
            assert(text::texts(out@) =~= text::texts(before).push(n@));
            assert(text::texts(out@) =~= items@.take(i + 1).filter(keep).map_values(name));
        }
        i = i + 1;
    }
    assert(items@.take(i as int) =~= items@);
    text::sort(out)
}

/// Where the cropped copy of an input folder goes: its name, below the
/// crop-copy parent folder.
pub open spec fn destination(src: Text, parent: Text) -> Option<Text> {
    match paths::file_name(src) {
        Some(name) => Some(paths::below(parent, name)),
        None => None,
    }
}

pub fn copy_folder(src: &str, parent: &str) -> (r: Option<String>)
    ensures
        text::opt_text(r) == destination(src@, parent@),
{
    match paths::file_name_of(src) {
        Some(name) => Some(paths::join(parent, name.as_str())),
        None => None,
    }
}

/// What pre-cropping a folder takes.
pub enum Precrop {
    /// A destination already holding the same number of TIFFs is reused as
    /// is; the text goes to the log.
    Reuse { dest: String, note: String },
    /// These images are to be cropped into the destination; the text goes to
    /// the log once they are.
    Crop { dest: String, images: Vec<String>, note: String },
}

pub open spec fn reuse_note(name: Text, count: nat, dest: Text) -> Text {
    "pre-crop — "@ + name + " already cropped ("@ + number::decimal(count) + " TIFF(s) in "@ + dest
        + "), reused"@
}

pub open spec fn crop_note(name: Text, count: nat, dest: Text) -> Text {
    "pre-crop — "@ + name + ": "@ + number::decimal(count) + " TIFF(s) cropped into "@ + dest
}

proof fn lemma_multiset_len(a: Seq<Text>, b: Seq<Text>)
    requires
        a.to_multiset() == b.to_multiset(),
    ensures
        a.len() == b.len(),
{
    broadcast use vstd::seq_lib::group_to_multiset_ensures;

    assert(a.to_multiset().len() == a.len());
    assert(b.to_multiset().len() == b.len());
}

/// What pre-cropping a folder comes to: a folder with images is cropped into
/// its own folder of copies, every image of it, unless there are as many
/// copies already.
pub open spec fn precropped(
    src: Text,
    parent: Text,
    at_src: Seq<Item>,
    at_dest: Seq<Item>,
    r: Result<Precrop, String>,
) -> bool {
    match r {
        Ok(Precrop::Reuse { dest, .. }) => {
            &&& destination(src, parent) == Some(dest@)
            &&& tiffs(at_src).len() > 0
            &&& tiffs(at_dest).len() == tiffs(at_src).len()
        },
        Ok(Precrop::Crop { dest, images, .. }) => {
            &&& destination(src, parent) == Some(dest@)
            &&& tiffs(at_src).len() > 0
            &&& tiffs(at_dest).len() != tiffs(at_src).len()
            &&& text::texts(images@).to_multiset() == tiffs(at_src).to_multiset()
        },
        Err(_) => destination(src, parent) is None || tiffs(at_src).len() == 0,
    }
}

/// Decide how an input folder is cropped into `<parent>/<folder name>/`, by
/// the workflow runner's rule: a destination already holding the same number
/// of TIFFs is reused as is. `at_src` and `at_dest` are the entries of the
/// folder and of its destination (none where it is missing).
pub fn precrop_folder(src: &str, parent: &str, at_src: &Vec<Item>, at_dest: &Vec<Item>) -> (r:
    Result<Precrop, String>)
    ensures
        match r {
            Ok(Precrop::Reuse { dest, note }) => {
                &&& destination(src@, parent@) == Some(dest@)
                &&& tiffs(at_src@).len() > 0
                &&& tiffs(at_dest@).len() == tiffs(at_src@).len()
                &&& note@ == reuse_note(paths::name_of(src@), tiffs(at_src@).len(), dest@)
            },
            Ok(Precrop::Crop { dest, images, note }) => {
                &&& destination(src@, parent@) == Some(dest@)
                &&& tiffs(at_src@).len() > 0
                &&& tiffs(at_dest@).len() != tiffs(at_src@).len()
                &&& text::all_in_order(text::texts(images@))
                &&& text::texts(images@).to_multiset() == tiffs(at_src@).to_multiset()
                &&& note@ == crop_note(paths::name_of(src@), tiffs(at_src@).len(), dest@)
            },
            Err(message) => {
                ||| destination(src@, parent@) is None && message@ == "input folder "@ + src@
                    + " has no name"@
                ||| destination(src@, parent@) is Some && tiffs(at_src@).len() == 0 && message@
                    == "no TIFF files found in "@ + src@
            },
        },
        precropped(src@, parent@, at_src@, at_dest@, r),
{
    let name = match paths::file_name_of(src) {
        Some(name) => name,
        None => return Err(text::cat3("input folder ", src, " has no name")),
    };
    let dest = paths::join(parent, name.as_str());
    let images = list_tiff(at_src);
    let existing = list_tiff(at_dest);
    proof {
        lemma_multiset_len(text::texts(images@), tiffs(at_src@));
        lemma_multiset_len(text::texts(existing@), tiffs(at_dest@));
        assert(text::texts(images@).len() == images@.len());
        assert(text::texts(existing@).len() == existing@.len());
    }
    if images.len() == 0 {
        return Err(text::cat2("no TIFF files found in ", src));
    }
    let count = number::decimal_text(images.len() as u64);
    if existing.len() == images.len() {
        let note = text::cat7(
            "pre-crop — ",
            name.as_str(),
            " already cropped (",
            count.as_str(),
            " TIFF(s) in ",
            dest.as_str(),
            "), reused",
        );
        return Ok(Precrop::Reuse { dest, note });
    }
    let note = text::cat6(
        "pre-crop — ",
        name.as_str(),
        ": ",
        count.as_str(),
        " TIFF(s) cropped into ",
        dest.as_str(),
    );
    Ok(Precrop::Crop { dest, images, note })
}

/// The `*_Spectra.txt` sidecars to copy along, in the order of the entries.
pub open spec fn sidecars(items: Seq<Item>) -> Seq<Text> {
    items.filter(|item: Item| item.is_file && files::is_spectra(item.name@)).map_values(
        |item: Item| item.name@,
    )
}

pub fn spectra_sidecars(items: &Vec<Item>) -> (r: Vec<String>)
    ensures
        text::texts(r@) == sidecars(items@),
{
    let ghost keep = |item: Item| item.is_file && files::is_spectra(item.name@);
    let ghost name = |item: Item| item.name@;
    let mut out: Vec<String> = Vec::new();
    let mut i: usize = 0;
    assert(items@.take(0).filter(keep).map_values(name) =~= Seq::empty()) by {
        reveal(Seq::filter);
    }
    assert(text::texts(out@) =~= Seq::empty());
    while i < items.len()
        invariant
            i <= items@.len(),
            keep == (|item: Item| item.is_file && files::is_spectra(item.name@)),
            name == (|item: Item| item.name@),
            text::texts(out@) == items@.take(i as int).filter(keep).map_values(name),
        decreases items@.len() - i,
    {
        proof {
            reveal(Seq::filter);
            assert(items@.take(i + 1).drop_last() =~= items@.take(i as int));
            assert(items@.take(i + 1).last() == items@[i as int]);
        }
        let low = text::lowercase(items[i].name.as_str());
        if items[i].is_file && text::ends_with(low.as_str(), "_spectra.txt") {
            let n = items[i].name.clone();
            let ghost before = out@;
            out.push(n);
            assert(text::texts(out@) =~= text::texts(before).push(n@));
            assert(text::texts(out@) =~= items@.take(i + 1).filter(keep).map_values(name));
        }
        i = i + 1;
    }
    assert(items@.take(i as int) =~= items@);
    out
}

/// The message about a region that does not fit an image.
pub fn does_not_fit(region: Region, w: usize, h: usize, path: &str) -> (r: String)
    ensures
        r@ == "crop region ("@ + number::decimal(region.0 as nat) + ", "@ + number::decimal(
            region.1 as nat,
        ) + ", "@ + number::decimal(region.2 as nat) + ", "@ + number::decimal(region.3 as nat)
            + ") does not fit the "@ + number::decimal(w as nat) + "×"@ + number::decimal(
            h as nat,
        ) + " image "@ + path@,
{
    let x0 = number::decimal_text(region.0 as u64);
    let y0 = number::decimal_text(region.1 as u64);
    let x1 = number::decimal_text(region.2 as u64);
    let y1 = number::decimal_text(region.3 as u64);
    let wide = number::decimal_text(w as u64);
    let high = number::decimal_text(h as u64);
    let front = text::cat5("crop region (", x0.as_str(), ", ", y0.as_str(), ", ");
    let middle = text::cat5(front.as_str(), x1.as_str(), ", ", y1.as_str(), ") does not fit the ");
    text::cat6(middle.as_str(), wide.as_str(), "×", high.as_str(), " image ", path)
}

/// A folder cropped once is reused from then on: with all its images at the
/// destination, nothing is cropped again.
pub proof fn cropped_folders_are_reused(at_src: Seq<Item>, at_dest: Seq<Item>)
    requires
        tiffs(at_dest).to_multiset() == tiffs(at_src).to_multiset(),
    ensures
        tiffs(at_dest).len() == tiffs(at_src).len(),
{
    lemma_multiset_len(tiffs(at_dest), tiffs(at_src));
}

} // verus!
