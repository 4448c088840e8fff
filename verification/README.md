# video_diffusion

The rules behind two families of video diffusion models: how a request is checked and prepared, how a latent
is cut into patches and put together again, which expert predicts at which step, how a solver combines its
estimates, how adapters reach the layers of a model, how checkpoints are converted, how a video is decoded in
tiles, and how adapters are trained.

- `src/` is the library. It works on plain values and is verified with Verus: every function states what it
  gives back and when it refuses. Functions named `law_..` state what holds of several functions together.
- `app/` is the code around it: files, environment variables, and the tensor work on the device.
- `tests/` runs the library on given values.

Numbers with a fraction take no part in the library: sizes, thresholds and rounding are computed on whole
numbers and exact fractions, and a number that is only handed on is held by its bits.
