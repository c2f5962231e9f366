# thmp5

A local music library and player. The library under `src/` holds the rules: what is
made of tags, files, queries, fingerprints and the catalogue, and what the player does
next. It is written in Verus, and its functions are proved to meet the contracts they
state, but for the wrappers of outside calls. The program under `app/` does the reading
and writing (files, the database, web services and the sound output), runs the decoders
and tag readers, and does the arithmetic on numbers with a fraction.

## The library

| Module | What it does |
|--------|--------------|
| `audio`, `audio_probe`, `waveform` | the player's state, resampling, buffering, the recovery of damaged files, pictures of tracks |
| `calendar`, `digest`, `sorting`, `text` | dates, hashes and encodings, stable sorting, texts |
| `commands`, `play` | what the commands of the player check, and which file is played |
| `db`, `importer`, `file_issues` | the record of connections, the progress of a scan, the log of problems |
| `fingerprint`, `lastfm` | acoustic fingerprints and their comparison, requests to web services |
| `library` | reading and writing ID3 tags, importing files, repairing merged recordings |
| `query` | the language of smart playlists, and its form in SQL |
| `sleep_inhibitor` | keeping the machine awake |
| `storage` | the catalogue in memory, and whether a release is complete |

Numbers with a fraction appear in the library as bit patterns.

Statements about the library as a whole are proof functions named `law_…`, beside the
functions they are about. What is taken on trust from other crates stands in functions
marked `external_body`, each with the outside function it calls and what is claimed of
it.

## The program

```
thmp5 setup ~/Music
thmp5 query 'Rating >= 4 AND Genre is "Jazz" LIMIT 60 minutes'
thmp5 play SOURCE | aplay -f FLOAT_LE -r 48000 -c 2
```

`thmp5` alone lists all commands. Fingerprints are looked up when `ACOUSTID_API_KEY` is
set.
