# realesrgan

Real-ESRGAN (RRDBNet) image upscaling, verified with Verus.

`src/` is the library. Pixel values are a type parameter, and the arithmetic on
them is a trait that the program implements, so the contracts hold of single
precision on any machine: a result is described by the sequence of operations that
gives each value.

| module | what it holds |
| --- | --- |
| `arith`, `plane`, `grid` | the arithmetic of a network, planar tensors, index arithmetic |
| `conv`, `taps`, `conv3x3` | the 3x3 convolution: its parameters, what its result is, the banded parallel kernel |
| `shuffle` | nearest-neighbour enlargement and pixel unshuffle |
| `model`, `graph`, `forward` | the architecture, the network as a relation, the pass on the host |
| `weights`, `load`, `text` | a checkpoint's tensors: shape checks, loading, the error texts |
| `layout` | where each convolution's parameters lie in one weight buffer |
| `program`, `agree` | the pass as operations on device buffers, and that it is the network |
| `locality`, `seams` | how far a pixel of the result looks, and when tiling is exact |
| `shape`, `launch`, `device` | the launch table, the launches of a pass, kernels and buffers by name and length |
| `tile`, `image`, `codec`, `resize`, `dump` | tiles, images, PNG files, resampling, stage dumps |
| `profile`, `parallel` | timings of the convolutions, the thread pool |
| `selftest`, `bench` | what is launched to compare and to time the kernels |
| `cli` | the command line |

`app/` is the program: files, streams, environment variables, the CUDA driver, and the
floating-point operations. `tests/` runs the library with single precision, with the
real `png` and `rayon`.

The device backend is compiled with the `cuda` feature. It embeds two modules of
kernels, the toolkit's and the project's own, from the files that
`REALESRGAN_TOOLKIT_FATBIN` and `REALESRGAN_PROJECT_FATBIN` name at build time.
