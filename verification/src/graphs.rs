use vstd::prelude::*;

use crate::input::ascii_lower;
use crate::text::{chars_of, push_char};
use image::ImageEncoder;

verus! {

/// The runs of present values, in order: a missing value ends the run
/// before it, and runs are never empty.
pub open spec fn present_runs<T>(items: Seq<Option<T>>) -> Seq<Seq<T>>
    decreases items.len(),
{
    if items.len() == 0 {
        Seq::empty()
    } else {
        let runs = present_runs(items.drop_last());
        match items.last() {
            Some(v) => if items.len() >= 2 && items[items.len() - 2] is Some {
                runs.drop_last().push(runs.last().push(v))
            } else {
                runs.push(seq![v])
            },
            None => runs,
        }
    }
}

/// The present values, in order.
pub open spec fn present_values<T>(items: Seq<Option<T>>) -> Seq<T>
    decreases items.len(),
{
    if items.len() == 0 {
        Seq::empty()
    } else {
        let rest = present_values(items.drop_last());
        match items.last() {
            Some(v) => rest.push(v),
            None => rest,
        }
    }
}

/// The runs joined end to end.
pub open spec fn flatten_runs<T>(runs: Seq<Seq<T>>) -> Seq<T>
    decreases runs.len(),
{
    if runs.len() == 0 {
        Seq::empty()
    } else {
        flatten_runs(runs.drop_last()) + runs.last()
    }
}

pub open spec fn vecs_view<T>(v: Seq<Vec<T>>) -> Seq<Seq<T>> {
    v.map_values(|t: Vec<T>| t@)
}

proof fn lemma_last_run_nonempty<T>(items: Seq<Option<T>>)
    requires
        items.len() > 0,
        items.last() is Some,
    ensures
        present_runs(items).len() > 0,
        present_runs(items).last().len() > 0,
    decreases items.len(),
{
    if items.len() >= 2 && items[items.len() - 2] is Some {
        assert(items.drop_last().last() == items[items.len() - 2]);
        lemma_last_run_nonempty(items.drop_last());
    }
}

/// Joining the runs gives back every present value in order, and no run
/// is empty.
pub proof fn lemma_runs_keep_values<T>(items: Seq<Option<T>>)
    ensures
        flatten_runs(present_runs(items)) == present_values(items),
        forall|k: int|
            0 <= k < present_runs(items).len() ==> #[trigger] present_runs(items)[k].len() > 0,
    decreases items.len(),
{
    if items.len() > 0 {
        let prev = items.drop_last();
        lemma_runs_keep_values(prev);
        let runs = present_runs(prev);
        match items.last() {
            Some(v) => {
                if items.len() >= 2 && items[items.len() - 2] is Some {
                    assert(prev.last() == items[items.len() - 2]);
                    lemma_last_run_nonempty(prev);
                    let init = runs.drop_last();
                    assert(runs =~= init.push(runs.last()));
                    assert(flatten_runs(runs) == flatten_runs(init) + runs.last());
                    let out = init.push(runs.last().push(v));
                    assert(out.drop_last() =~= init);
                    assert(flatten_runs(out) =~= flatten_runs(runs).push(v));
                } else {
                    let out = runs.push(seq![v]);
                    assert(out.drop_last() =~= runs);
                    assert(flatten_runs(out) =~= flatten_runs(runs).push(v));
                }
            },
            None => {},
        }
    }
}

/// Splits a series with gaps into its runs of present values, so that a
/// plotted line breaks at every gap.
pub fn segment_present<T: Copy>(items: &[Option<T>]) -> (runs: Vec<Vec<T>>)
    ensures
        vecs_view(runs@) == present_runs(items@),
{
    let mut done: Vec<Vec<T>> = Vec::new();
    let mut cur: Vec<T> = Vec::new();
    let mut i: usize = 0;
    while i < items.len()
        invariant
            i <= items@.len(),
            cur@.len() > 0 <==> (i > 0 && items@[i - 1] is Some),
            present_runs(items@.take(i as int)) == if cur@.len() > 0 {
                vecs_view(done@).push(cur@)
            } else {
                vecs_view(done@)
            },
        decreases items@.len() - i,
    {
        let item = items[i];
        let ghost prefix = items@.take(i + 1);
        proof {
            assert(prefix.drop_last() =~= items@.take(i as int));
            assert(prefix.last() == item);
            if i > 0 {
                assert(prefix[prefix.len() - 2] == items@[i - 1]);
            }
        }
        match item {
            Some(v) => {
                let ghost w = present_runs(items@.take(i as int));
                if cur.len() > 0 {
                    assert(w.drop_last() =~= vecs_view(done@));
                }
                cur.push(v);
                proof {
                    if i > 0 && items@[i - 1] is Some {
                        assert(present_runs(prefix) == w.drop_last().push(w.last().push(v)));
                    } else {
                        assert(present_runs(prefix) == w.push(seq![v]));
                        assert(cur@ =~= seq![v]);
                    }
                }
            },
            None => {
                if cur.len() > 0 {
                    let ghost before = vecs_view(done@);
                    let ghost run = cur@;
                    let finished = cur;
                    done.push(finished);
                    cur = Vec::new();
                    assert(vecs_view(done@) =~= before.push(run));
                }
            },
        }
        i += 1;
    }
    assert(items@.take(items@.len() as int) =~= items@);
    if cur.len() > 0 {
        let ghost before = vecs_view(done@);
        let ghost run = cur@;
        done.push(cur);
        assert(vecs_view(done@) =~= before.push(run));
    }
    done
}

/// Whether a character stays in a graph's file name.
pub open spec fn slug_keeps(c: char) -> bool {
    ('0' <= c && c <= '9') || ('a' <= c && c <= 'z') || ('A' <= c && c <= 'Z') || c == '_'
}

/// A title's characters in lower case, with spaces turned into `_`.
pub open spec fn slug_char(c: char) -> char {
    if c == ' ' {
        '_'
    } else {
        ascii_lower(c)
    }
}

/// The characters of a title that a file name keeps.
pub open spec fn slug_body(title: Seq<char>) -> Seq<char>
    decreases title.len(),
{
    if title.len() == 0 {
        Seq::empty()
    } else {
        let rest = slug_body(title.drop_last());
        let c = slug_char(title.last());
        if slug_keeps(c) {
            rest.push(c)
        } else {
            rest
        }
    }
}

/// A graph's file name: its title lowered, spaces as `_`, only ASCII
/// letters, digits and `_` kept, `graph` when nothing is left, then
/// `.png`.
pub open spec fn slug_text(title: Seq<char>) -> Seq<char> {
    let body = slug_body(title);
    (if body.len() == 0 {
        "graph"@
    } else {
        body
    }) + ".png"@
}

/// Names the image file of a graph after its title.
pub fn slugify(title: &str) -> (name: String)
    ensures
        name@ == slug_text(title@),
{
    let chars = chars_of(title);
    let mut out = String::new();
    let mut i: usize = 0;
    while i < chars.len()
        invariant
            i <= chars@.len(),
            chars@ == title@,
            out@ == slug_body(chars@.take(i as int)),
        decreases chars@.len() - i,
    {
        let c = chars[i];
        let mapped = if c == ' ' {
            '_'
        } else if 'A' <= c && c <= 'Z' {
            let code: u8 = (c as u8) + 32;
            code as char
        } else {
            c
        };
        proof {
            let prefix = chars@.take(i + 1);
            assert(prefix.drop_last() =~= chars@.take(i as int));
            assert(prefix.last() == c);
            assert(mapped == slug_char(c));
        }
        let keep = ('0' <= mapped && mapped <= '9') || ('a' <= mapped && mapped <= 'z') || ('A'
            <= mapped && mapped <= 'Z') || mapped == '_';
        if keep {
            push_char(&mut out, mapped);
        }
        i += 1;
    }
    assert(chars@.take(chars@.len() as int) =~= chars@);
    if out.unicode_len() == 0 {
        out = String::from_str("graph");
    }
    out.append(".png");
    out
}

/// What the `image` crate's PNG encoder writes for an 8-bit RGB image of
/// the given size: the bytes of the PNG file, or the text of its error.
pub uninterp spec fn png_rgb8_encoding(pixels: Seq<u8>, width: u32, height: u32) -> Result<
    Seq<u8>,
    Seq<char>,
>;

/// Trusted: wraps `image::codecs::png::PngEncoder::write_image` with
/// `ExtendedColorType::Rgb8`, writing into memory. The result is the name
/// `png_rgb8_encoding` applied to the pixels and the size; an error is
/// given by its text. `write_image` panics when the buffer does not hold
/// three bytes for each pixel, which the `requires` rules out.
#[verifier::external_body]
fn png_rgb8(pixels: &[u8], width: u32, height: u32) -> (r: Result<Vec<u8>, String>)
    requires
        pixels@.len() == width * height * 3,
    ensures
        match r {
            Ok(png) => png_rgb8_encoding(pixels@, width, height) == Ok::<Seq<u8>, Seq<char>>(png@),
            Err(e) => png_rgb8_encoding(pixels@, width, height) == Err::<Seq<u8>, Seq<char>>(e@),
        },
{
    let mut png = Vec::new();
    let encoder = image::codecs::png::PngEncoder::new(&mut png);
    match encoder.write_image(pixels, width, height, image::ExtendedColorType::Rgb8) {
        Ok(()) => Ok(png),
        Err(error) => Err(error.to_string()),
    }
}

/// A graph's RGB pixels as a PNG file; a failure is reported as
/// `failed to encode graph png: ` and the encoder's message.
pub fn encode_graph_png(pixels: &[u8], width: u32, height: u32) -> (r: Result<Vec<u8>, String>)
    requires
        pixels@.len() == width * height * 3,
    ensures
        match png_rgb8_encoding(pixels@, width, height) {
            Ok(png) => r matches Ok(b) && b@ == png,
            Err(message) => r matches Err(e) && e@ == "failed to encode graph png: "@ + message,
        },
{
    match png_rgb8(pixels, width, height) {
        Ok(png) => Ok(png),
        Err(message) => {
            let mut e = String::from_str("failed to encode graph png: ");
            e.append(message.as_str());
            Err(e)
        },
    }
}

} // verus!
