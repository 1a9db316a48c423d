//! A video as a sequence of images of glyphs.

use vstd::prelude::*;
use crate::algo::resample_outcome;
use crate::color::Pixel;
use crate::colored_char::ColoredChar;
use crate::error::Error;
use crate::flat_matrix::{FlatMatrix, Grid};
use crate::image::AsciiImg;
use crate::parallel::par_map_range;
use crate::render::{is_grid_rendering, is_plain_grid, plain_grid};
use crate::subsample::{par_select_spaced_items, seq_select_spaced_items, spaced_items};

verus! {

/// A video as its frames, each a grid of coloured glyphs.
pub struct AsciiVid(pub Vec<AsciiImg>);

/// The mathematical content of frames.
pub open spec fn frame_views(frames: Seq<FlatMatrix<Pixel>>) -> Seq<Grid<Pixel>> {
    frames.map_values(|f: FlatMatrix<Pixel>| f@)
}

/// What a request to convert frames is answered with: the error of the
/// first frame that is refused, else the grids of all frames.
pub open spec fn frames_outcome(
    frames: Seq<Grid<Pixel>>,
    height: nat,
    width: nat,
    invert: bool,
    grayscale: bool,
    uniform: bool,
) -> Result<Seq<Grid<ColoredChar>>, Error>
    decreases frames.len(),
{
    if frames.len() == 0 {
        Ok(Seq::empty())
    } else {
        match frames_outcome(frames.drop_last(), height, width, invert, grayscale, uniform) {
            Err(e) => Err(e),
            Ok(done) => match resample_outcome(
                frames.last(),
                height,
                width,
                invert,
                grayscale,
                uniform,
            ) {
                Err(e) => Err(e),
                Ok(g) => Ok(done.push(g)),
            },
        }
    }
}

/// Every frame has a cell for every position.
pub open spec fn frames_wf(frames: Seq<FlatMatrix<Pixel>>) -> bool {
    forall|i: int| 0 <= i < frames.len() ==> (#[trigger] frames[i]).wf()
}

/// The grids of the images of a video.
pub open spec fn image_views(images: Seq<AsciiImg>) -> Seq<Grid<ColoredChar>> {
    images.map_values(|img: AsciiImg| img.0@)
}

/// The answer to one frame as a value of the model.
pub open spec fn answer_view(r: Result<AsciiImg, Error>) -> Result<Grid<ColoredChar>, Error> {
    match r {
        Ok(img) => Ok(img.0@),
        Err(e) => Err(e),
    }
}

/// Gathers the answers to the frames of a video: the first refusal, else
/// all images.
fn gather(
    answers: Vec<Result<AsciiImg, Error>>,
    Ghost(frames): Ghost<Seq<Grid<Pixel>>>,
    Ghost(height): Ghost<nat>,
    Ghost(width): Ghost<nat>,
    invert: bool,
    grayscale: bool,
    uniform: bool,
) -> (r: Result<AsciiVid, Error>)
    requires
        answers.len() == frames.len(),
        forall|i: int|
            0 <= i < answers.len() ==> {
                &&& answer_view(#[trigger] answers[i]) == resample_outcome(
                    frames[i],
                    height,
                    width,
                    invert,
                    grayscale,
                    uniform,
                )
                &&& answers[i] matches Ok(img) ==> img.0.wf()
            },
    ensures
        r matches Ok(vid) ==> Ok::<Seq<Grid<ColoredChar>>, Error>(image_views(vid.0@))
            == frames_outcome(frames, height, width, invert, grayscale, uniform) && forall|
            i: int,
        | 0 <= i < vid.0.len() ==> (#[trigger] vid.0[i]).0.wf(),
        r matches Err(e) ==> Err::<Seq<Grid<ColoredChar>>, Error>(e) == frames_outcome(
            frames,
            height,
            width,
            invert,
            grayscale,
            uniform,
        ),
{
    let n: usize = answers.len();
    let mut answers = answers;
    let ghost all = answers@;
    // the answers are taken from the back, so that none is copied
    let mut back: Vec<AsciiImg> = Vec::new();
    let mut refused: Option<Error> = None;
    while answers.len() > 0
        invariant
            n == all.len(),
            answers.len() <= n,
            answers@ == all.take(answers.len() as int),
            refused is None ==> back.len() == n - answers.len(),
            refused is None ==> forall|k: int|
                0 <= k < back.len() ==> all[n - 1 - k] == Ok::<AsciiImg, Error>(#[trigger] back[k]),
            refused matches Some(e) ==> exists|k: int|
                answers.len() <= k < n && all[k] == Err::<AsciiImg, Error>(e) && forall|j: int|
                    answers.len() <= j < k ==> (#[trigger] all[j]) is Ok,
        decreases answers.len(),
    {
        let ghost at = answers.len() - 1;
        let answer = answers.pop().unwrap();
        assert(answers@ =~= all.take(at));
        assert(answer == all[at]);
        match answer {
            Ok(img) => {
                if refused.is_none() {
                    back.push(img);
                }
            },
            Err(e) => {
                refused = Some(e);
            },
        }
    }
    match refused {
        Some(e) => {
            proof {
                let k = choose|k: int|
                    0 <= k < n && all[k] == Err::<AsciiImg, Error>(e) && forall|j: int|
                        0 <= j < k ==> (#[trigger] all[j]) is Ok;
                lemma_first_refusal(
                    frames,
                    all,
                    k,
                    n as int,
                    height,
                    width,
                    invert,
                    grayscale,
                    uniform,
                );
                assert(frames.take(n as int) =~= frames);
            }
            Err(e)
        },
        None => {
            let mut images: Vec<AsciiImg> = Vec::new();
            let ghost kept = back@;
            while back.len() > 0
                invariant
                    kept.len() == n,
                    back.len() <= n,
                    back@ == kept.take(back.len() as int),
                    images.len() == n - back.len(),
                    forall|k: int| 0 <= k < images.len() ==> #[trigger] images[k] == kept[n - 1 - k],
                decreases back.len(),
            {
                let ghost m = back.len();
                let img = back.pop().unwrap();
                assert(back@ =~= kept.take(m - 1));
                images.push(img);
            }
            proof {
                assert forall|k: int| 0 <= k < n implies all[k] == Ok::<AsciiImg, Error>(
                    #[trigger] images[k],
                ) by {
                    assert(images[k] == kept[n - 1 - k]);
                    assert(all[n - 1 - (n - 1 - k)] == Ok::<AsciiImg, Error>(kept[n - 1 - k]));
                }
                lemma_all_answered(
                    frames,
                    all,
                    images@,
                    n as int,
                    height,
                    width,
                    invert,
                    grayscale,
                    uniform,
                );
                assert(frames.take(n as int) =~= frames);
                assert(images@.take(n as int) =~= images@);
            }
            Ok(AsciiVid(images))
        },
    }
}

/// Where the answers to the first `n` frames are all images, the outcome for
/// these frames is the grids of the images.
proof fn lemma_all_answered(
    frames: Seq<Grid<Pixel>>,
    answers: Seq<Result<AsciiImg, Error>>,
    images: Seq<AsciiImg>,
    n: int,
    height: nat,
    width: nat,
    invert: bool,
    grayscale: bool,
    uniform: bool,
)
    requires
        0 <= n <= frames.len(),
        answers.len() == frames.len(),
        images.len() >= n,
        forall|i: int|
            0 <= i < n ==> answer_view(#[trigger] answers[i]) == resample_outcome(
                frames[i],
                height,
                width,
                invert,
                grayscale,
                uniform,
            ),
        forall|i: int| 0 <= i < n ==> answers[i] == Ok::<AsciiImg, Error>(#[trigger] images[i]),
    ensures
        frames_outcome(frames.take(n), height, width, invert, grayscale, uniform) == Ok::<
            Seq<Grid<ColoredChar>>,
            Error,
        >(image_views(images.take(n))),
    decreases n,
{
    if n > 0 {
        lemma_all_answered(
            frames,
            answers,
            images,
            n - 1,
            height,
            width,
            invert,
            grayscale,
            uniform,
        );
        assert(frames.take(n).drop_last() =~= frames.take(n - 1));
        assert(answer_view(answers[n - 1]) == Ok::<Grid<ColoredChar>, Error>(images[n - 1].0@));
        assert(image_views(images.take(n)) =~= image_views(images.take(n - 1)).push(
            images[n - 1].0@,
        ));
    } else {
        assert(image_views(images.take(0)) =~= Seq::<Grid<ColoredChar>>::empty());
    }
}

/// Where frame `k` is the first that is refused, its error is the outcome
/// for any number of frames beyond it.
proof fn lemma_first_refusal(
    frames: Seq<Grid<Pixel>>,
    answers: Seq<Result<AsciiImg, Error>>,
    k: int,
    n: int,
    height: nat,
    width: nat,
    invert: bool,
    grayscale: bool,
    uniform: bool,
)
    requires
        0 <= k < n <= frames.len(),
        answers.len() == frames.len(),
        forall|i: int|
            0 <= i < n ==> answer_view(#[trigger] answers[i]) == resample_outcome(
                frames[i],
                height,
                width,
                invert,
                grayscale,
                uniform,
            ),
        answers[k] is Err,
        forall|j: int| 0 <= j < k ==> (#[trigger] answers[j]) is Ok,
    ensures
        frames_outcome(frames.take(n), height, width, invert, grayscale, uniform) == Err::<
            Seq<Grid<ColoredChar>>,
            Error,
        >(answers[k]->Err_0),
    decreases n,
{
    assert(frames.take(n).drop_last() =~= frames.take(n - 1));
    if n - 1 > k {
        lemma_first_refusal(
            frames,
            answers,
            k,
            n - 1,
            height,
            width,
            invert,
            grayscale,
            uniform,
        );
    } else {
        lemma_prefix_answered(frames, answers, k, height, width, invert, grayscale, uniform);
        assert(answer_view(answers[k]) == Err::<Grid<ColoredChar>, Error>(answers[k]->Err_0));
    }
}

/// Where the first `n` frames are all answered with images, the outcome for
/// them is no error.
proof fn lemma_prefix_answered(
    frames: Seq<Grid<Pixel>>,
    answers: Seq<Result<AsciiImg, Error>>,
    n: int,
    height: nat,
    width: nat,
    invert: bool,
    grayscale: bool,
    uniform: bool,
)
    requires
        0 <= n <= frames.len(),
        answers.len() == frames.len(),
        forall|i: int|
            0 <= i < n ==> answer_view(#[trigger] answers[i]) == resample_outcome(
                frames[i],
                height,
                width,
                invert,
                grayscale,
                uniform,
            ),
        forall|j: int| 0 <= j < n ==> (#[trigger] answers[j]) is Ok,
    ensures
        frames_outcome(frames.take(n), height, width, invert, grayscale, uniform) is Ok,
    decreases n,
{
    if n > 0 {
        lemma_prefix_answered(frames, answers, n - 1, height, width, invert, grayscale, uniform);
        assert(frames.take(n).drop_last() =~= frames.take(n - 1));
        assert(answers[n - 1] is Ok);
        assert(answer_view(answers[n - 1]) is Ok);
    }
}

impl AsciiVid {
    /// Converts a video: keeps `n_frames` evenly spaced frames (all of them
    /// where no number is given) and resamples each to the given size, the
    /// frames handed out to the thread pool.
    pub fn new_paralleled(
        frames: Vec<FlatMatrix<Pixel>>,
        n_frames: Option<usize>,
        final_height: usize,
        final_width: usize,
        invert: bool,
        grayscale: bool,
        uniform: bool,
    ) -> (r: Result<Self, Error>)
        requires
            frames_wf(frames@),
        ensures
            r matches Ok(vid) ==> Ok::<Seq<Grid<ColoredChar>>, Error>(image_views(vid.0@))
                == frames_outcome(
                frame_views(spaced_items(frames@, n_frames)),
                final_height as nat,
                final_width as nat,
                invert,
                grayscale,
                uniform,
            ) && forall|i: int| 0 <= i < vid.0.len() ==> (#[trigger] vid.0[i]).0.wf(),
            r matches Err(e) ==> Err::<Seq<Grid<ColoredChar>>, Error>(e) == frames_outcome(
                frame_views(spaced_items(frames@, n_frames)),
                final_height as nat,
                final_width as nat,
                invert,
                grayscale,
                uniform,
            ),
    {
        proof {
            lemma_kept_frames_wf(frames@, n_frames);
        }
        let kept: Vec<FlatMatrix<Pixel>> = par_select_spaced_items(frames, n_frames);
        let n: usize = kept.len();
        let one_frame = |i: usize| -> (answer: Result<AsciiImg, Error>)
            requires
                i < n,
            ensures
                answer_view(answer) == resample_outcome(
                    kept[i as int]@,
                    final_height as nat,
                    final_width as nat,
                    invert,
                    grayscale,
                    uniform,
                ),
                answer matches Ok(img) ==> img.0.wf(),
            {
                let answer: Result<AsciiImg, Error> = AsciiImg::new_parallel(
                    &kept[i],
                    final_height,
                    final_width,
                    invert,
                    grayscale,
                    uniform,
                );
                answer
            };
        let answers: Vec<Result<AsciiImg, Error>> = par_map_range(n, one_frame);
        proof {
            assert forall|i: int| 0 <= i < answers.len() implies {
                &&& answer_view(#[trigger] answers[i]) == resample_outcome(
                    frame_views(kept@)[i],
                    final_height as nat,
                    final_width as nat,
                    invert,
                    grayscale,
                    uniform,
                )
                &&& answers[i] matches Ok(img) ==> img.0.wf()
            } by {
                let t = i as usize;
                assert(answers[t as int] == answers[i]);
            }
        }
        gather(
            answers,
            Ghost(frame_views(kept@)),
            Ghost(final_height as nat),
            Ghost(final_width as nat),
            invert,
            grayscale,
            uniform,
        )
    }

    /// Converts a video as `new_paralleled` does, frame after frame.
    pub fn new_sequential(
        frames: Vec<FlatMatrix<Pixel>>,
        n_frames: Option<usize>,
        final_height: usize,
        final_width: usize,
        invert: bool,
        grayscale: bool,
        uniform: bool,
    ) -> (r: Result<Self, Error>)
        requires
            frames_wf(frames@),
        ensures
            r matches Ok(vid) ==> Ok::<Seq<Grid<ColoredChar>>, Error>(image_views(vid.0@))
                == frames_outcome(
                frame_views(spaced_items(frames@, n_frames)),
                final_height as nat,
                final_width as nat,
                invert,
                grayscale,
                uniform,
            ) && forall|i: int| 0 <= i < vid.0.len() ==> (#[trigger] vid.0[i]).0.wf(),
            r matches Err(e) ==> Err::<Seq<Grid<ColoredChar>>, Error>(e) == frames_outcome(
                frame_views(spaced_items(frames@, n_frames)),
                final_height as nat,
                final_width as nat,
                invert,
                grayscale,
                uniform,
            ),
    {
        proof {
            lemma_kept_frames_wf(frames@, n_frames);
        }
        let kept: Vec<FlatMatrix<Pixel>> = seq_select_spaced_items(frames, n_frames);
        let n: usize = kept.len();
        let mut answers: Vec<Result<AsciiImg, Error>> = Vec::with_capacity(n);
        let mut i: usize = 0;
        while i < n
            invariant
                n == kept.len(),
                frames_wf(kept@),
                i <= n,
                answers.len() == i,
                forall|t: int|
                    0 <= t < i ==> {
                        &&& answer_view(#[trigger] answers[t]) == resample_outcome(
                            frame_views(kept@)[t],
                            final_height as nat,
                            final_width as nat,
                            invert,
                            grayscale,
                            uniform,
                        )
                        &&& answers[t] matches Ok(img) ==> img.0.wf()
                    },
            decreases n - i,
        {
            answers.push(
                AsciiImg::new_sequential(
                    &kept[i],
                    final_height,
                    final_width,
                    invert,
                    grayscale,
                    uniform,
                ),
            );
            i = i + 1;
        }
        gather(
            answers,
            Ghost(frame_views(kept@)),
            Ghost(final_height as nat),
            Ghost(final_width as nat),
            invert,
            grayscale,
            uniform,
        )
    }
}

/// The frames that are kept are frames of the video, so each has a cell for
/// every position.
pub proof fn lemma_kept_frames_wf(frames: Seq<FlatMatrix<Pixel>>, keep: Option<usize>)
    requires
        frames_wf(frames),
    ensures
        frames_wf(spaced_items(frames, keep)),
{
    match keep {
        None => {},
        Some(k) => {
            if 0 < k < frames.len() {
                assert forall|i: int| 0 <= i < k implies (#[trigger] spaced_items(
                    frames,
                    keep,
                )[i]).wf() by {
                    crate::subsample::lemma_spaced_index(i, frames.len(), k as nat);
                }
            }
        },
    }
}

/// Converts a video and writes each of its frames out as text: the frames
/// that are kept, in their order. `paralleled` chooses between the thread
/// pool and plain iteration and has no bearing on the grids that are written.
pub fn convert_video(
    frames: Vec<FlatMatrix<Pixel>>,
    n_frames: Option<usize>,
    final_height: usize,
    final_width: usize,
    invert: bool,
    grayscale: bool,
    uniform: bool,
    paralleled: bool,
) -> (r: Result<Vec<String>, Error>)
    requires
        frames_wf(frames@),
    ensures
        r matches Ok(texts) ==> (frames_outcome(
            frame_views(spaced_items(frames@, n_frames)),
            final_height as nat,
            final_width as nat,
            invert,
            grayscale,
            uniform,
        ) matches Ok(grids) && texts.len() == grids.len() && forall|i: int|
            0 <= i < texts.len() ==> {
                &&& is_grid_rendering(grids[i].row_seqs(), (#[trigger] texts[i])@)
                &&& is_plain_grid(grids[i].row_seqs()) ==> texts[i]@ == plain_grid(
                    grids[i].row_seqs(),
                )
            }),
        r matches Err(e) ==> Err::<Seq<Grid<ColoredChar>>, Error>(e) == frames_outcome(
            frame_views(spaced_items(frames@, n_frames)),
            final_height as nat,
            final_width as nat,
            invert,
            grayscale,
            uniform,
        ),
{
    let converted = if paralleled {
        AsciiVid::new_paralleled(
            frames,
            n_frames,
            final_height,
            final_width,
            invert,
            grayscale,
            uniform,
        )
    } else {
        AsciiVid::new_sequential(
            frames,
            n_frames,
            final_height,
            final_width,
            invert,
            grayscale,
            uniform,
        )
    };
    match converted {
        Err(e) => Err(e),
        Ok(video) => {
            let ghost grids = image_views(video.0@);
            let mut texts: Vec<String> = Vec::with_capacity(video.0.len());
            let mut i: usize = 0;
            while i < video.0.len()
                invariant
                    grids == image_views(video.0@),
                    forall|k: int| 0 <= k < video.0.len() ==> (#[trigger] video.0[k]).0.wf(),
                    i <= video.0.len(),
                    texts.len() == i,
                    forall|k: int|
                        0 <= k < i ==> {
                            &&& is_grid_rendering(grids[k].row_seqs(), (#[trigger] texts[k])@)
                            &&& is_plain_grid(grids[k].row_seqs()) ==> texts[k]@ == plain_grid(
                                grids[k].row_seqs(),
                            )
                        },
                decreases video.0.len() - i,
            {
                assert(grids[i as int] == video.0[i as int].0@);
                texts.push(video.0[i].to_string());
                i = i + 1;
            }
            Ok(texts)
        },
    }
}

} // verus!
