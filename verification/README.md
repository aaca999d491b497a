# autonormalization_monitor

The auto normalization of the VENUS beamline: pick an experiment and a
normalization configuration, then either normalize every upcoming run
automatically or check a specific list of runs.

The library in `src/` is written in Verus. It holds everything the monitor
decides — which runs are there and complete, which are normalized, with what
inputs, where the results go, what stands in the table — as functions on
plain values whose contracts are proved. It reads no file and starts no
process: listings, file contents and times come in as arguments, and what is
to be written, launched or shown comes out.

| Modules | What they hold |
| --- | --- |
| `text`, `number`, `order`, `paths`, `quoting`, `clock`, `runmap` | texts, run numbers, paths, quoted arguments, moments and maps by run |
| `config` | the shared `autoreduction.cfg` |
| `files`, `runs` | the files of a run, complete or not, and the reduction logs |
| `h5` | what the NeXus and configuration files hold |
| `norm`, `job`, `crop` | the normalization jobs, from inputs to summary log |
| `runner` | the course of a job, from the first look at its output to the result in place |
| `jobs` | the jobs running, the queue and its cap |
| `spans`, `timeline` | the rolling windows and the acquisition timeline |
| `settings`, `pass`, `series`, `beams`, `choices` | the settings of each run, the automatic pass, runs normalized together, open beams |
| `ipts`, `notebook` | the experiment, its configuration files and its notebook |
| `labels`, `table`, `editor` | what the window says |

Where a decision needs readings one after the other, the library asks: a scan
(`files::Scan`, `choices::BeamScan`, `spans::SpanScan`) names what to read
next, and is fed what was read. A running job (`runner::Runner`) says what to
do next and is told what came of it.

`app/` is the desktop application around the library: the window (egui), the
disk, the HDF5 files, the TIFF images and the processes. `tests/` runs the
library on concrete values.

A few things are believed rather than proved: that `String::push` appends a
character and `char::from_u32` gives the character of a number, that
`char::escape_debug` depends on the character alone, and that what chrono
makes of an RFC 3339 time depends on the text alone, and what it writes of a
moment on the moment, the offset and the format alone.
