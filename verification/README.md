# tvid

A video player for the terminal: it decodes a file with FFmpeg and draws the
frames with colored half blocks, Braille dots, ASCII art or inline
images, with the sound, subtitles, a playlist, a file selector, a command
line and panels over the video.

The logic of the player is a library verified with Verus (`src/`); the
program around it (`app/`) does the input and output.

## Layout

- `src/` — the verified library:
  - `text`, `util`, `ui`: characters and their widths, colors and cells,
    text boxes on the cell grid, the large font, chroma keys;
  - `stdin`, `callbacks`: decoding the terminal's input bytes into keys,
    mouse events and pastes, and the tables of who takes them;
  - `avsync`, `playback`, `media`: the playback clock, the audio clock,
    timestamps, which video frames are shown and when, the audio buffer and
    the decoder's packet queues;
  - `playlist`, `panels`, `command`: the playlist and its overlay, the file
    selector, the help, quit and message panels, the command line with its
    history and completion;
  - `render`, `stdout`, `sixel`, `osc8`, `osc1337`: the layout of the video
    on the terminal, drawing frames into cells, the diff encoder, image
    escapes and the output queue;
  - `subtitle`, `logging`, `error`, `statistics`, `config`: subtitles,
    messages, errors, timings, settings and the playlist file.
- `tests/` — tests of the library.
- `app/` — the program: terminal setup, the threads, FFmpeg and cpal calls,
  the settings files, and the floating-point color work.
