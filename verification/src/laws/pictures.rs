//! What cropping keeps of an image and of a folder.

use vstd::prelude::*;
use crate::crop::{Item, Precrop};
use crate::h5::Region;
use crate::laws::lists;
use crate::text::{Class, Text};
use crate::{crop, number, paths, text};

verus! {

/// A cropped image is as wide and as high as its region, and the pixel at
/// column x and row y of it is the one at x0 + x and y0 + y of the image.
pub proof fn crops_keep_their_pixels<T>(
    values: Seq<T>,
    w: int,
    h: int,
    region: Region,
    x: int,
    y: int,
)
    requires
        crop::fits(region, w as nat, h as nat),
        w >= 0,
        h >= 0,
        values.len() == w * h,
        0 <= x < region.2 - region.0,
        0 <= y < region.3 - region.1,
    ensures
        crop::cropped(values, w, region).len() == (region.2 - region.0) * (region.3 - region.1),
        crop::cropped(values, w, region)[y * (region.2 - region.0) + x] == values[(region.1 + y) * w
            + (region.0 + x)],
        0 <= (region.1 + y) * w + (region.0 + x) < values.len(),
{
    let cw = region.2 - region.0;
    let ch = region.3 - region.1;
    let i = y * cw + x;
    assert(0 <= i < cw * ch) by (nonlinear_arith)
        requires
            0 <= x < cw,
            0 <= y < ch,
            i == y * cw + x,
    ;
    assert(i / cw == y && i % cw == x) by (nonlinear_arith)
        requires
            0 <= x < cw,
            0 <= y,
            i == y * cw + x,
    ;
    let at = (region.1 + y) * w + (region.0 + x);
    assert(0 <= at < w * h) by (nonlinear_arith)
        requires
            0 <= region.1 + y < h,
            0 <= region.0 + x < w,
            at == (region.1 + y) * w + (region.0 + x),
    ;
}

/// A region fits an image exactly when it is not empty and lies inside it in
/// both directions; the stops may touch the edges.
pub proof fn regions_fit_inside_the_image(region: Region, w: nat, h: nat)
    ensures
        crop::fits(region, w, h) <==> 0 <= region.0 < region.2 <= w && 0 <= region.1 < region.3
            <= h,
{
}

/// An image of one sample a pixel is taken as it is; of one with more, the
/// first sample of each pixel is; a list that is no whole number of samples
/// a pixel is no image.
pub proof fn images_keep_their_first_sample<T>(
    values: Seq<T>,
    w: u32,
    h: u32,
    samples: nat,
    i: int,
)
    requires
        w > 0,
        h > 0,
        0 <= i < (w as int) * (h as int),
    ensures
        samples > 0 && values.len() == samples * ((w as int) * (h as int)) ==> {
            &&& crop::pixels(values, w, h) is Some
            &&& crop::pixels(values, w, h)->0.len() == (w as int) * (h as int)
            &&& crop::pixels(values, w, h)->0[i] == values[i * samples]
        },
        values.len() as int % ((w as int) * (h as int)) != 0 ==> crop::pixels(values, w, h) is None,
{
    let n = (w as int) * (h as int);
    assert(n > 0) by (nonlinear_arith)
        requires
            w > 0,
            h > 0,
            n == (w as int) * (h as int),
    ;
    if samples > 0 && values.len() == samples * n {
        assert((samples * n) % n == 0 && (samples * n) / n == samples as int) by (nonlinear_arith)
            requires
                n > 0,
        ;
        if values.len() == n {
            assert(samples == 1) by (nonlinear_arith)
                requires
                    samples * n == n,
                    n > 0,
            ;
        }
    }
    if values.len() as int % n != 0 {
        if values.len() == n {
            assert(n % n == 0) by (nonlinear_arith)
                requires
                    n > 0,
            ;
        }
    }
}

/// A file name ends in its extension: what stands behind its last dot.
pub proof fn extensions_stand_behind_the_last_dot(front: Text, ext: Text, is_file: bool, item: Item)
    requires
        front.len() > 0,
        text::all_in(ext, Class::Not('.')),
        item.name@ == front + seq!['.'] + ext,
        item.is_file == is_file,
    ensures
        crop::extension(front + seq!['.'] + ext) == ext,
        crop::is_tiff_item(item) <==> is_file && (text::lowered(ext) == "tif"@ || text::lowered(ext)
            == "tiff"@),
{
    let s = front + seq!['.'] + ext;
    let d = front.len() as int + 1;
    assert(s.subrange(d, s.len() as int) =~= ext);
    assert(s[d - 1] == '.');
    text::run_start_is(s, Class::Not('.'), d, s.len() as int);
    assert(s.skip(d) =~= ext);
}

/// The images of a folder are its TIFF files, all of them and nothing else;
/// its spectra files are copied beside them, all of them and nothing else.
pub proof fn every_tiff_file_is_cropped(items: Seq<Item>, name: Text)
    ensures
        crop::tiffs(items).contains(name) <==> exists|k: int|
            0 <= k < items.len() && crop::is_tiff_item(#[trigger] items[k]) && items[k].name@
                == name,
        crop::sidecars(items).contains(name) <==> exists|k: int|
            0 <= k < items.len() && (#[trigger] items[k]).is_file && text::ends(
                text::lowered(items[k].name@),
                "_spectra.txt"@,
            ) && items[k].name@ == name,
{
    let p = |it: Item| crop::is_tiff_item(it);
    let q = |it: Item| it.is_file && crate::files::is_spectra(it.name@);
    let a = items.filter(p);
    let b = items.filter(q);
    let at = crop::tiffs(items);
    let bt = crop::sidecars(items);
    if at.contains(name) {
        let i = choose|i: int| 0 <= i < at.len() && at[i] == name;
        lists::filtered_holds(items, p, a[i]);
        assert(a.contains(a[i]));
        let k = choose|k: int| 0 <= k < items.len() && items[k] == a[i];
        assert(crop::is_tiff_item(items[k]) && items[k].name@ == name);
    }
    if bt.contains(name) {
        let i = choose|i: int| 0 <= i < bt.len() && bt[i] == name;
        lists::filtered_holds(items, q, b[i]);
        assert(b.contains(b[i]));
        let k = choose|k: int| 0 <= k < items.len() && items[k] == b[i];
        assert(items[k].is_file && items[k].name@ == name);
    }
    if exists|k: int|
        0 <= k < items.len() && crop::is_tiff_item(#[trigger] items[k]) && items[k].name@ == name {
        let k = choose|k: int|
            0 <= k < items.len() && crop::is_tiff_item(#[trigger] items[k]) && items[k].name@
                == name;
        lists::filtered_holds(items, p, items[k]);
        let i = choose|i: int| 0 <= i < a.len() && a[i] == items[k];
        assert(at[i] == name);
    }
    if exists|k: int|
        0 <= k < items.len() && (#[trigger] items[k]).is_file && text::ends(
            text::lowered(items[k].name@),
            "_spectra.txt"@,
        ) && items[k].name@ == name {
        let k = choose|k: int|
            0 <= k < items.len() && (#[trigger] items[k]).is_file && text::ends(
                text::lowered(items[k].name@),
                "_spectra.txt"@,
            ) && items[k].name@ == name;
        lists::filtered_holds(items, q, items[k]);
        let i = choose|i: int| 0 <= i < b.len() && b[i] == items[k];
        assert(bt[i] == name);
    }
}

/// Cropped copies of a folder lie under its own name in the folder for
/// copies.
pub proof fn copies_keep_the_name_of_their_folder(dir: Text, name: Text, parent: Text)
    requires
        paths::plain_name(name),
        name != seq!['.', '.'],
    ensures
        crop::destination(paths::below(dir, name), parent) == Some(paths::below(parent, name)),
{
    paths::file_name_of_below(dir, name);
}

/// A folder with a name and images is cropped, all its images and into its
/// own copy, unless as many copies lie there already; then they are reused.
pub proof fn folders_are_cropped_once(
    src: Text,
    parent: Text,
    at_src: Seq<Item>,
    at_dest: Seq<Item>,
    r: Result<Precrop, String>,
    name: Text,
)
    requires
        crop::precropped(src, parent, at_src, at_dest, r),
    ensures
        r is Ok <==> paths::file_name(src) is Some && crop::tiffs(at_src).len() > 0,
        r matches Ok(Precrop::Reuse { dest, .. }) ==> dest@ == paths::below(
            parent,
            paths::file_name(src)->0,
        ) && crop::tiffs(at_dest).len() == crop::tiffs(at_src).len(),
        r matches Ok(Precrop::Crop { dest, images, .. }) ==> dest@ == paths::below(
            parent,
            paths::file_name(src)->0,
        ) && crop::tiffs(at_dest).len() != crop::tiffs(at_src).len() && (text::texts(
            images@,
        ).contains(name) <==> crop::tiffs(at_src).contains(name)),
{
    broadcast use vstd::seq_lib::group_to_multiset_ensures;

    match r {
        Ok(Precrop::Crop { dest, images, .. }) => {
            assert(text::texts(images@).to_multiset().count(name) == crop::tiffs(
                at_src,
            ).to_multiset().count(name));
        },
        _ => {},
    }
}

/// What was done to a folder is told with its name, the number of its images
/// and where the copies lie.
pub proof fn crops_are_told(name: Text, count: nat, dest: Text)
    ensures
        crop::crop_note(name, count, dest) == "pre-crop — "@ + name + ": "@ + number::decimal(count)
            + " TIFF(s) cropped into "@ + dest,
        crop::reuse_note(name, count, dest) == "pre-crop — "@ + name + " already cropped ("@
            + number::decimal(count) + " TIFF(s) in "@ + dest + "), reused"@,
{
}

} // verus!
